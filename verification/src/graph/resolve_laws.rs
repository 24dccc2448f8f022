//! What holds of every resolved request.
use vstd::prelude::*;

use crate::graph::laws::{Path, Text};
use crate::graph::resolve::{
    candidates, cleaned, guesses, normal, package_named, MemberModel, World,
};
use crate::path::{
    components, extension_of, is_name, joined_path, last_dot, names_are_their_components, shown,
    stem_of_name, with_extension,
};
use crate::text::without_leading;

verus! {

/// A request is the name of a package, or that name with a slash and a path behind it.
pub open spec fn asks_package(request: Text, name: Text) -> bool {
    request == name || (name + "/"@).is_prefix_of(request)
}

/// Package `i` is the first that a request asks for.
pub open spec fn is_first_asked(packages: Seq<MemberModel>, request: Text, i: int) -> bool {
    &&& 0 <= i < packages.len()
    &&& asks_package(request, packages[i].name)
    &&& forall|k: int| 0 <= k < i ==> !asks_package(request, (#[trigger] packages[k]).name)
}

/// A request asks for no package.
pub open spec fn asks_no_package(packages: Seq<MemberModel>, request: Text) -> bool {
    forall|k: int| 0 <= k < packages.len() ==> !asks_package(request, (#[trigger] packages[k]).name)
}

/// A module of the graph or a file on the disk.
pub open spec fn is_there(w: World, path: Path) -> bool {
    w.modules.dom().contains(path) || w.disk.files@.contains(path)
}

proof fn asking_is_naming(request: Text, name: Text)
    ensures
        crate::graph::resolve::names_package(request, name) == asks_package(request, name),
{
    reveal_strlit("/");
    let longer = name + "/"@;
    if name.is_prefix_of(request) && request.len() > name.len() {
        let rest = request.skip(name.len() as int);
        if rest[0] == '/' {
            assert(longer =~= request.take(longer.len() as int));
        }
        if longer.is_prefix_of(request) {
            assert(request.take(longer.len() as int)[name.len() as int] == '/');
        }
    }
    if longer.is_prefix_of(request) {
        assert(name =~= request.take(name.len() as int)) by {
            assert(request.take(longer.len() as int) =~= longer);
            assert forall|i: int| 0 <= i < name.len() implies name[i] == request[i] by {
                assert(longer[i] == name[i]);
                assert(request.take(longer.len() as int)[i] == request[i]);
            }
        }
        assert(request.take(longer.len() as int)[name.len() as int] == '/');
        assert(request.skip(name.len() as int)[0] == '/');
    }
}

pub(crate) proof fn first_asked_is_named(packages: Seq<MemberModel>, request: Text, from: int)
    requires
        0 <= from <= packages.len(),
    ensures
        match package_named(packages, request, from) {
            Some(i) => {
                &&& from <= i < packages.len()
                &&& asks_package(request, packages[i].name)
                &&& forall|k: int|
                    from <= k < i ==> !asks_package(request, (#[trigger] packages[k]).name)
            },
            None => forall|k: int|
                from <= k < packages.len() ==> !asks_package(request, (#[trigger] packages[k]).name),
        },
    decreases packages.len() - from,
{
    if from < packages.len() {
        asking_is_naming(request, packages[from].name);
        first_asked_is_named(packages, request, from + 1);
    }
}

/// The file of a package that a request means: what the package exports for the path behind its
/// name; where it exports nothing for it, its entrypoint for the name alone, and for a longer
/// request what the module resolver finds from the package's directory.
pub open spec fn is_package_file(w: World, package: MemberModel, request: Text, path: Path) -> bool {
    if request == package.name {
        if package.exports.dom().contains("."@) {
            path == package.exports["."@]
        } else {
            package.entrypoint == Some(path)
        }
    } else {
        let rest = request.skip(package.name.len() as int);
        let below = "./"@ + without_leading(rest, '/');
        if without_leading(rest, '/').len() == 0 {
            if package.exports.dom().contains("."@) {
                path == package.exports["."@]
            } else {
                package.entrypoint == Some(path)
            }
        } else if package.exports.dom().contains(below) {
            path == package.exports[below]
        } else {
            &&& w.disk.lookups@.dom().contains((package.dir, below))
            &&& path == normal(w.disk, w.disk.lookups@[(package.dir, below)]@)
        }
    }
}

/// A request for a package of the workspace means the file that the first package of that name
/// has for it, if it is there.
pub proof fn package_requests_mean_package_files(
    w: World,
    importer: Path,
    request: Text,
    i: int,
    path: Path,
)
    requires
        is_first_asked(w.packages, request, i),
        is_package_file(w, w.packages[i], request, path),
        is_there(w, path),
    ensures
        w.resolve(importer, request) == Some(path),
{
    first_asked_is_named(w.packages, request, 0);
    let j = package_named(w.packages, request, 0)->0;
    assert(j == i) by {
        if j < i {
            assert(!asks_package(request, w.packages[j].name));
        }
        if i < j {
            assert(!asks_package(request, w.packages[i].name));
        }
    }
    let name = w.packages[i].name;
    asking_is_naming(request, name);
    if request == name {
        assert(name.is_prefix_of(request));
        assert(request.skip(name.len() as int) =~= Seq::empty());
    }
}

/// Path `i` that a relative request may mean, in the order in which they are tried. A request
/// for a JavaScript file may mean the TypeScript file that it is made from. A request with
/// another known extension means itself. Any other means itself, or, for each extension in turn,
/// the path with that extension behind it, or the index file with that extension below it.
pub open spec fn is_tried(requested: Path, i: int, path: Path) -> bool {
    match extension_of(requested) {
        Some(e) if e == "js"@ => {
            ||| i == 0 && path == with_extension(requested, "ts"@)
            ||| i == 1 && path == with_extension(requested, "tsx"@)
            ||| i == 2 && path == requested
        },
        Some(e) if e == "mjs"@ => {
            ||| i == 0 && path == with_extension(requested, "mts"@)
            ||| i == 1 && path == requested
        },
        Some(e) if e == "cjs"@ => {
            ||| i == 0 && path == with_extension(requested, "cts"@)
            ||| i == 1 && path == requested
        },
        Some(e) if e == "ts"@ || e == "tsx"@ || e == "mts"@ || e == "cts"@ || e == "jsx"@ || e
            == "json"@ => i == 0 && path == requested,
        _ => {
            ||| i == 0 && path == requested
            ||| exists|k: int| #[trigger] is_guess(requested, i, path, k)
        },
    }
}

/// Extension `k` of those that are tried.
pub open spec fn extension_at(k: int) -> Text {
    if k == 0 {
        "ts"@
    } else if k == 1 {
        "tsx"@
    } else if k == 2 {
        "mts"@
    } else if k == 3 {
        "cts"@
    } else if k == 4 {
        "js"@
    } else if k == 5 {
        "jsx"@
    } else if k == 6 {
        "mjs"@
    } else {
        "cjs"@
    }
}

pub open spec fn is_guess(requested: Path, i: int, path: Path, k: int) -> bool {
    &&& 0 <= k < 8
    &&& {
        ||| i == 2 * k + 1 && path == components(shown(requested) + "."@ + extension_at(k))
        ||| i == 2 * k + 2 && path == requested.push("index."@ + extension_at(k))
    }
}

proof fn guess_at(requested: Path, n: int, k: int)
    requires
        0 <= k < n <= 8,
    ensures
        guesses(requested, n).len() == 2 * n,
        guesses(requested, n)[2 * k] == components(shown(requested) + "."@ + extension_at(k)),
        guesses(requested, n)[2 * k + 1] == with_extension(
            joined_path(requested, components("index"@)),
            extension_at(k),
        ),
    decreases n,
{
    if n == 1 {
        assert(guesses(requested, 0).len() == 0);
    } else {
        guess_at(requested, n - 1, if k < n - 1 {
            k
        } else {
            0
        });
    }
}

proof fn index_files_lie_below(requested: Path, extension: Text)
    requires
        extension.len() > 0,
    ensures
        with_extension(joined_path(requested, components("index"@)), extension) == requested.push(
            "index."@ + extension,
        ),
{
    reveal_strlit("index");
    reveal_strlit("index.");
    reveal_strlit(".");
    reveal_strlit("..");
    reveal_strlit("/");
    let name = "index"@;
    assert(name.len() == 5 && "."@.len() == 1);
    assert(!name.contains('/'));
    names_are_their_components(name);
    let path = requested.push(name);
    assert(joined_path(requested, seq![name]) =~= path);
    assert(path.last() == name);
    assert(is_name(name));
    reveal_with_fuel(last_dot, 6);
    assert(last_dot(name, 5) == -1);
    assert(stem_of_name(name) == name);
    assert("index"@ + "."@ =~= "index."@);
    assert(path.drop_last() =~= requested);
}

proof fn tried_are_candidates(requested: Path, i: int, path: Path)
    ensures
        (0 <= i < candidates(requested).len() && candidates(requested)[i] == path) == is_tried(
            requested,
            i,
            path,
        ),
{
    reveal_strlit("ts");
    reveal_strlit("tsx");
    reveal_strlit("mts");
    reveal_strlit("cts");
    reveal_strlit("js");
    reveal_strlit("jsx");
    reveal_strlit("mjs");
    reveal_strlit("cjs");
    reveal_strlit("json");
    guess_at(requested, 8, 0);
    let list = seq![requested] + guesses(requested, 8);
    if 1 <= i < 17 {
        let k = (i - 1) / 2;
        guess_at(requested, 8, k);
        index_files_lie_below(requested, extension_at(k));
        assert(list[i] == guesses(requested, 8)[i - 1]);
        assert((list[i] == path) == is_guess(requested, i, path, k));
        assert forall|j: int| #[trigger] is_guess(requested, i, path, j) implies j == k by {}
    }
    assert((0 <= i < 17 && list[i] == path) == (i == 0 && path == requested || exists|k: int| #[trigger]
        is_guess(requested, i, path, k)));
}

/// A relative request that asks for no package means the first of the paths that it may mean,
/// in canonical form, that is there.
pub proof fn relative_requests_mean_the_first_file_there(
    w: World,
    importer: Path,
    request: Text,
    i: int,
    path: Path,
)
    requires
        asks_no_package(w.packages, request),
        importer.len() > 0 && importer.last() != "/"@,
        request.len() > 0 && request[0] == '.',
        is_tried(
            cleaned(components(shown(joined_path(importer.drop_last(), components(request))))),
            i,
            path,
        ),
        is_there(w, normal(w.disk, path)),
        forall|k: int, other: Path| #[trigger]
            is_tried(
                cleaned(components(shown(joined_path(importer.drop_last(), components(request))))),
                k,
                other,
            ) && k < i ==> !is_there(w, normal(w.disk, other)),
    ensures
        w.resolve(importer, request) == Some(normal(w.disk, path)),
{
    let requested = cleaned(components(shown(joined_path(importer.drop_last(), components(request)))));
    first_asked_is_named(w.packages, request, 0);
    let list = candidates(requested);
    tried_are_candidates(requested, i, path);
    assert forall|k: int| 0 <= k < i implies !w.exists_at(normal(w.disk, #[trigger] list[k])) by {
        tried_are_candidates(requested, k, list[k]);
    }
    first_there_is_found(w, list, 0, i);
}

proof fn first_there_is_found(w: World, list: Seq<Path>, from: int, i: int)
    requires
        0 <= from <= i < list.len(),
        w.exists_at(normal(w.disk, list[i])),
        forall|k: int| from <= k < i ==> !w.exists_at(normal(w.disk, #[trigger] list[k])),
    ensures
        w.first_existing(list, from) == Some(normal(w.disk, list[i])),
    decreases i - from,
{
    if from < i {
        first_there_is_found(w, list, from + 1, i);
    }
}

/// A relative request that asks for no package and none of whose paths is there means nothing.
pub proof fn relative_requests_may_mean_nothing(w: World, importer: Path, request: Text)
    requires
        asks_no_package(w.packages, request),
        importer.len() > 0,
        request.len() > 0 && request[0] == '.',
        forall|k: int, other: Path| #[trigger]
            is_tried(
                cleaned(components(shown(joined_path(importer.drop_last(), components(request))))),
                k,
                other,
            ) ==> !is_there(w, normal(w.disk, other)),
    ensures
        w.resolve(importer, request) is None,
{
    let requested = cleaned(components(shown(joined_path(importer.drop_last(), components(request)))));
    first_asked_is_named(w.packages, request, 0);
    let list = candidates(requested);
    assert forall|k: int| 0 <= k < list.len() implies !w.exists_at(normal(w.disk, #[trigger] list[k])) by {
        tried_are_candidates(requested, k, list[k]);
    }
    none_there_is_found(w, list, 0);
}

proof fn none_there_is_found(w: World, list: Seq<Path>, from: int)
    requires
        0 <= from <= list.len(),
        forall|k: int| 0 <= k < list.len() ==> !w.exists_at(normal(w.disk, #[trigger] list[k])),
    ensures
        w.first_existing(list, from) is None,
    decreases list.len() - from,
{
    if from < list.len() {
        none_there_is_found(w, list, from + 1);
    }
}

/// A request that asks for no package and starts with a slash or a hash means what the module
/// resolver found from the importer's directory, if it is there.
pub proof fn rooted_requests_mean_what_was_found(
    w: World,
    importer: Path,
    request: Text,
    path: Path,
)
    requires
        asks_no_package(w.packages, request),
        importer.len() > 0 && importer.last() != "/"@,
        request.len() > 0 && (request[0] == '/' || request[0] == '#'),
    ensures
        (w.resolve(importer, request) == Some(path)) <==> {
            &&& w.disk.lookups@.dom().contains((importer.drop_last(), request))
            &&& path == normal(w.disk, w.disk.lookups@[(importer.drop_last(), request)]@)
            &&& is_there(w, path)
        },
{
    first_asked_is_named(w.packages, request, 0);
}

/// A request that asks for no package and does not start with a dot, a slash or a hash is for
/// something outside the workspace.
pub proof fn other_requests_mean_nothing(w: World, importer: Path, request: Text)
    requires
        asks_no_package(w.packages, request),
        request.len() == 0 || (request[0] != '.' && request[0] != '/' && request[0] != '#'),
    ensures
        w.resolve(importer, request) is None,
{
    first_asked_is_named(w.packages, request, 0);
}

/// What a request means is there.
pub proof fn resolved_files_are_there(w: World, importer: Path, request: Text)
    ensures
        w.resolve(importer, request) matches Some(path) ==> is_there(w, path),
{
    if let Some(directory) = crate::path::parent_of(importer) {
        let requested = cleaned(components(shown(joined_path(directory, components(request)))));
        existing_is_there(w, candidates(requested), 0);
    }
}

proof fn existing_is_there(w: World, list: Seq<Path>, from: int)
    ensures
        w.first_existing(list, from) matches Some(path) ==> is_there(w, path),
    decreases list.len() - from,
{
    if 0 <= from < list.len() {
        existing_is_there(w, list, from + 1);
    }
}

} // verus!
