//! What has to be known of the disk before requests can be resolved.
use vstd::prelude::*;

use crate::collections::{KeyMap, KeySet};
use crate::graph::resolve::{
    candidates, cleaned, find_package, list_candidates, looked_up, members, normal, package_named,
    requested_path, subpath_of, MemberModel, WorkspacePackage, World,
};
use crate::order::{models, Key};
use crate::parser::{ImportBinding, ParsedModule, ReExport, RuntimeLoad};
use crate::path::{components, joined_path, parent_of, shown, FilePath};
use crate::text::{join2, starts_with_char, strip_prefix, trim_leading};

verus! {

/// The paths that a relative request may stand for.
pub open spec fn asked_files(importer: Seq<Seq<char>>, request: Seq<char>) -> Seq<Seq<Seq<char>>> {
    match parent_of(importer) {
        Some(directory) => if request.len() > 0 && request[0] == '.' {
            candidates(cleaned(components(shown(joined_path(directory, components(request))))))
        } else {
            Seq::empty()
        },
        None => Seq::empty(),
    }
}

/// What the module resolver has to look up inside the package that a request names.
pub open spec fn asked_of_package(packages: Seq<MemberModel>, request: Seq<char>) -> Seq<
    (Seq<Seq<char>>, Seq<char>),
> {
    match package_named(packages, request, 0) {
        Some(i) => {
            let subpath = subpath_of(request, packages[i].name);
            if subpath.len() > 0 {
                seq![(packages[i].dir, "./"@ + subpath)]
            } else {
                Seq::empty()
            }
        },
        None => Seq::empty(),
    }
}

/// What the module resolver has to look up from the directory of the importing module.
pub open spec fn asked_from_directory(importer: Seq<Seq<char>>, request: Seq<char>) -> Seq<
    (Seq<Seq<char>>, Seq<char>),
> {
    match parent_of(importer) {
        Some(directory) => if request.len() > 0 && (request[0] == '/' || request[0] == '#') {
            seq![(directory, request)]
        } else {
            Seq::empty()
        },
        None => Seq::empty(),
    }
}

/// Everything that the module resolver has to look up for a request.
pub open spec fn asked_lookups(
    packages: Seq<MemberModel>,
    importer: Seq<Seq<char>>,
    request: Seq<char>,
) -> Seq<(Seq<Seq<char>>, Seq<char>)> {
    asked_of_package(packages, request) + asked_from_directory(importer, request)
}

/// The paths of which the canonical form has to be known, and whether it is a file.
pub fn files_to_check(importer: &FilePath, request: &str) -> (r: Vec<FilePath>)
    ensures
        models(r@) == asked_files(importer@, request@),
{
    match importer.parent() {
        Some(directory) => if starts_with_char(request, '.') {
            list_candidates(requested_path(&directory, request))
        } else {
            let r: Vec<FilePath> = Vec::new();
            assert(models(r@) =~= Seq::empty());
            r
        },
        None => {
            let r: Vec<FilePath> = Vec::new();
            assert(models(r@) =~= Seq::empty());
            r
        },
    }
}

/// The requests that the module resolver has to look up, with the directories it starts from.
pub fn lookups_to_make(packages: &Vec<WorkspacePackage>, importer: &FilePath, request: &str) -> (r:
    Vec<(FilePath, String)>)
    ensures
        models(r@) == asked_lookups(members(packages@), importer@, request@),
{
    let mut out: Vec<(FilePath, String)> = Vec::new();
    match find_package(packages, request) {
        Some(i) => {
            let package = &packages[i];
            assert(members(packages@)[i as int] == package@);
            let rest = match strip_prefix(request, package.name.as_str()) {
                Some(rest) => rest,
                None => String::new(),
            };
            let subpath = trim_leading(rest.as_str(), '/');
            proof {
                if crate::text::behind(request@, package.name@) is None {
                    assert(rest@ =~= Seq::<char>::empty());
                    assert(subpath@ =~= Seq::<char>::empty());
                }
            }
            if !subpath.as_str().is_empty() {
                out.push((package.dir.dup(), join2("./", subpath.as_str())));
            }
        },
        None => {},
    }
    assert(models(out@) =~= asked_of_package(members(packages@), request@));
    match importer.parent() {
        Some(directory) => {
            if starts_with_char(request, '/') || starts_with_char(request, '#') {
                out.push((directory, request.to_owned()));
            }
        },
        None => {},
    }
    assert(models(out@) =~= asked_lookups(members(packages@), importer@, request@));
    out
}

/// An import of some local name is taken from `request`.
pub open spec fn is_imported(
    imports: Map<Seq<char>, ImportBinding>,
    request: Seq<char>,
) -> bool {
    exists|local: Seq<char>|
        imports.dom().contains(local) && (#[trigger] imports[local]).source@ == request
}

/// A module asks for `request`: by an import, an export that it passes on, or a load.
pub open spec fn is_requested(m: ParsedModule, request: Seq<char>) -> bool {
    ||| is_imported(m.imports@, request)
    ||| is_imported(m.type_imports@, request)
    ||| exists|i: int| 0 <= i < m.re_exports@.len() && (#[trigger] m.re_exports@[i]).source@ == request
    ||| exists|i: int|
        0 <= i < m.type_re_exports@.len() && (#[trigger] m.type_re_exports@[i]).source@ == request
    ||| exists|i: int| 0 <= i < m.star_exports@.len() && (#[trigger] m.star_exports@[i])@ == request
    ||| exists|i: int|
        0 <= i < m.type_star_exports@.len() && (#[trigger] m.type_star_exports@[i])@ == request
    ||| m.module_requests@.contains(request)
    ||| exists|i: int|
        0 <= i < m.runtime_loads@.len() && (#[trigger] m.runtime_loads@[i]).source@ == request
}

fn add_imported(out: &mut KeySet<String>, imports: &KeyMap<String, ImportBinding>)
    ensures
        forall|q: Seq<char>| #[trigger]
            final(out)@.contains(q) == (old(out)@.contains(q) || is_imported(imports@, q)),
{
    let n = imports.len();
    let ghost keys = imports.keys();
    let mut i: usize = 0;
    while i < n
        invariant
            i <= n,
            n == keys.len(),
            keys == imports.keys(),
            imports@.dom() == keys.to_set(),
            forall|q: Seq<char>| #[trigger]
                out@.contains(q) == (old(out)@.contains(q) || exists|k: int|
                    0 <= k < i && imports@[#[trigger] keys[k]].source@ == q),
        decreases n - i,
    {
        let ghost before = out@;
        out.insert(imports.value_at(i).source.clone());
        proof {
            assert forall|q: Seq<char>| #[trigger]
                out@.contains(q) == (old(out)@.contains(q) || exists|k: int|
                    0 <= k < i + 1 && imports@[#[trigger] keys[k]].source@ == q) by {
                assert(before.contains(q) == (old(out)@.contains(q) || exists|k: int|
                    0 <= k < i && imports@[#[trigger] keys[k]].source@ == q));
                assert(imports@[keys[i as int]].source@ == imports@[keys[i as int]].source@);
            }
        }
        i += 1;
    }
    proof {
        assert forall|q: Seq<char>| #[trigger]
            out@.contains(q) == (old(out)@.contains(q) || is_imported(imports@, q)) by {
            if is_imported(imports@, q) {
                let local = choose|local: Seq<char>|
                    imports@.dom().contains(local) && (#[trigger] imports@[local]).source@ == q;
                assert(keys.to_set().contains(local));
                let k = choose|k: int| 0 <= k < keys.len() && keys[k] == local;
                assert(imports@[keys[k]].source@ == q);
            }
            if exists|k: int| 0 <= k < n && imports@[#[trigger] keys[k]].source@ == q {
                let k = choose|k: int| 0 <= k < n && imports@[#[trigger] keys[k]].source@ == q;
                assert(keys.to_set().contains(keys[k]));
            }
        }
    }
}

fn add_passed_on(out: &mut KeySet<String>, exports: &Vec<ReExport>)
    ensures
        forall|q: Seq<char>| #[trigger]
            final(out)@.contains(q) == (old(out)@.contains(q) || exists|i: int|
                0 <= i < exports@.len() && (#[trigger] exports@[i]).source@ == q),
{
    let mut i: usize = 0;
    while i < exports.len()
        invariant
            i <= exports.len(),
            forall|q: Seq<char>| #[trigger]
                out@.contains(q) == (old(out)@.contains(q) || exists|k: int|
                    0 <= k < i && (#[trigger] exports@[k]).source@ == q),
        decreases exports.len() - i,
    {
        let ghost before = out@;
        out.insert(exports[i].source.clone());
        proof {
            assert forall|q: Seq<char>| #[trigger]
                out@.contains(q) == (old(out)@.contains(q) || exists|k: int|
                    0 <= k < i + 1 && (#[trigger] exports@[k]).source@ == q) by {
                assert(before.contains(q) == (old(out)@.contains(q) || exists|k: int|
                    0 <= k < i && (#[trigger] exports@[k]).source@ == q));
                assert(exports@[i as int].source@ == exports@[i as int].source@);
            }
        }
        i += 1;
    }
}

fn add_names(out: &mut KeySet<String>, names: &Vec<String>)
    ensures
        forall|q: Seq<char>| #[trigger]
            final(out)@.contains(q) == (old(out)@.contains(q) || exists|i: int|
                0 <= i < names@.len() && (#[trigger] names@[i])@ == q),
{
    let mut i: usize = 0;
    while i < names.len()
        invariant
            i <= names.len(),
            forall|q: Seq<char>| #[trigger]
                out@.contains(q) == (old(out)@.contains(q) || exists|k: int|
                    0 <= k < i && (#[trigger] names@[k])@ == q),
        decreases names.len() - i,
    {
        let ghost before = out@;
        out.insert(names[i].clone());
        proof {
            assert forall|q: Seq<char>| #[trigger]
                out@.contains(q) == (old(out)@.contains(q) || exists|k: int|
                    0 <= k < i + 1 && (#[trigger] names@[k])@ == q) by {
                assert(before.contains(q) == (old(out)@.contains(q) || exists|k: int|
                    0 <= k < i && (#[trigger] names@[k])@ == q));
                assert(names@[i as int]@ == names@[i as int]@);
            }
        }
        i += 1;
    }
}

fn add_loads(out: &mut KeySet<String>, loads: &Vec<RuntimeLoad>)
    ensures
        forall|q: Seq<char>| #[trigger]
            final(out)@.contains(q) == (old(out)@.contains(q) || exists|i: int|
                0 <= i < loads@.len() && (#[trigger] loads@[i]).source@ == q),
{
    let mut i: usize = 0;
    while i < loads.len()
        invariant
            i <= loads.len(),
            forall|q: Seq<char>| #[trigger]
                out@.contains(q) == (old(out)@.contains(q) || exists|k: int|
                    0 <= k < i && (#[trigger] loads@[k]).source@ == q),
        decreases loads.len() - i,
    {
        let ghost before = out@;
        out.insert(loads[i].source.clone());
        proof {
            assert forall|q: Seq<char>| #[trigger]
                out@.contains(q) == (old(out)@.contains(q) || exists|k: int|
                    0 <= k < i + 1 && (#[trigger] loads@[k]).source@ == q) by {
                assert(before.contains(q) == (old(out)@.contains(q) || exists|k: int|
                    0 <= k < i && (#[trigger] loads@[k]).source@ == q));
                assert(loads@[i as int].source@ == loads@[i as int].source@);
            }
        }
        i += 1;
    }
}

/// Everything that a module asks for.
pub fn list_requests(module: &ParsedModule) -> (r: KeySet<String>)
    ensures
        forall|request: Seq<char>| #[trigger] r@.contains(request) == is_requested(*module, request),
{
    let mut out = module.module_requests.dup();
    add_imported(&mut out, &module.imports);
    add_imported(&mut out, &module.type_imports);
    add_passed_on(&mut out, &module.re_exports);
    add_passed_on(&mut out, &module.type_re_exports);
    add_names(&mut out, &module.star_exports);
    add_names(&mut out, &module.type_star_exports);
    add_loads(&mut out, &module.runtime_loads);
    out
}

/// Two states of the disk give the same answers to what a request asks: about the listed paths,
/// about the listed lookups, and about the files that packages name.
pub open spec fn agree_on(
    a: World,
    b: World,
    importer: Seq<Seq<char>>,
    request: Seq<char>,
) -> bool {
    let files = asked_files(importer, request);
    let lookups = asked_lookups(a.packages, importer, request);
    &&& a.modules == b.modules
    &&& a.packages == b.packages
    &&& forall|i: int|
        0 <= i < files.len() ==> {
            &&& normal(a.disk, #[trigger] files[i]) == normal(b.disk, files[i])
            &&& a.disk.files@.contains(normal(a.disk, files[i])) == b.disk.files@.contains(
                normal(b.disk, files[i]),
            )
        }
    &&& forall|i: int|
        0 <= i < lookups.len() ==> {
            let found = looked_up(a.disk, (#[trigger] lookups[i]).0, lookups[i].1);
            &&& found == looked_up(b.disk, lookups[i].0, lookups[i].1)
            &&& found is Some ==> a.disk.files@.contains(found->0) == b.disk.files@.contains(found->0)
        }
    &&& forall|i: int, path: Seq<Seq<char>>|
        0 <= i < a.packages.len() && #[trigger] names_file(a.packages[i], path)
            ==> a.disk.files@.contains(path) == b.disk.files@.contains(path)
}

/// A package names this file as its entrypoint or as an export.
pub open spec fn names_file(package: MemberModel, path: Seq<Seq<char>>) -> bool {
    package.entrypoint == Some(path) || exists|key: Seq<char>|
        package.exports.dom().contains(key) && #[trigger] package.exports[key] == path
}

/// A request resolves to the same file wherever the listed questions have the same answers: the
/// rest of the disk does not matter.
pub proof fn resolve_asks_only_what_is_listed(
    a: World,
    b: World,
    importer: Seq<Seq<char>>,
    request: Seq<char>,
)
    requires
        agree_on(a, b, importer, request),
    ensures
        a.resolve(importer, request) == b.resolve(importer, request),
{
    let lookups = asked_lookups(a.packages, importer, request);
    let of_package = asked_of_package(a.packages, request);
    let from_directory = asked_from_directory(importer, request);
    match package_named(a.packages, request, 0) {
        Some(i) => {
            package_is_listed(a.packages, request, 0);
            let package = a.packages[i];
            let subpath = subpath_of(request, package.name);
            let key = crate::graph::resolve::export_key(subpath);
            if package.exports.dom().contains(key) {
                assert(names_file(package, package.exports[key]));
            } else if subpath.len() == 0 {
                if package.entrypoint is Some {
                    assert(names_file(package, package.entrypoint->0));
                }
            } else {
                assert(of_package.len() == 1);
                assert(lookups[0] == of_package[0]);
            }
        },
        None => {},
    }
    assert(a.in_packages(request) == b.in_packages(request));
    match parent_of(importer) {
        Some(directory) => {
            if request.len() > 0 && request[0] == '.' {
                first_existing_agrees(a, b, asked_files(importer, request), 0);
            } else if request.len() > 0 && (request[0] == '/' || request[0] == '#') {
                assert(from_directory.len() == 1);
                assert(lookups[of_package.len() as int] == from_directory[0]);
            }
        },
        None => {},
    }
}

proof fn package_is_listed(packages: Seq<MemberModel>, request: Seq<char>, i: int)
    requires
        0 <= i,
        package_named(packages, request, i) is Some,
    ensures
        0 <= package_named(packages, request, i)->0 < packages.len(),
    decreases packages.len() - i,
{
    if i < packages.len() && !crate::graph::resolve::names_package(request, packages[i].name) {
        package_is_listed(packages, request, i + 1);
    }
}

proof fn first_existing_agrees(a: World, b: World, list: Seq<Seq<Seq<char>>>, i: int)
    requires
        0 <= i,
        a.modules == b.modules,
        forall|k: int|
            0 <= k < list.len() ==> {
                &&& normal(a.disk, #[trigger] list[k]) == normal(b.disk, list[k])
                &&& a.disk.files@.contains(normal(a.disk, list[k])) == b.disk.files@.contains(
                    normal(b.disk, list[k]),
                )
            },
    ensures
        a.first_existing(list, i) == b.first_existing(list, i),
    decreases list.len() - i,
{
    if i < list.len() {
        assert(normal(a.disk, list[i]) == normal(b.disk, list[i]));
        first_existing_agrees(a, b, list, i + 1);
    }
}

} // verus!
