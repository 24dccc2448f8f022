//! What holds of the packages of every workspace.
use vstd::prelude::*;

use crate::collections::{first_from, first_from_fits, last_before_fits};
use crate::data::{Data, DataModel};
use crate::graph::resolve::{normal, DiskFacts};
use crate::lookup::{entry_named, has_name};
use crate::parser::assemble::is_test_path;
use crate::parser::syntax::is_source_extension;
use crate::path::{components, extension_of, joined_path, name_of, stem_of};
use crate::walk::reaches;
use crate::words::words;
use crate::workspace::manifest::{
    below, entry_candidates, export_path, exported_files, has_dotted, is_file_at, package_exports,
    package_of, root_export, worker_entry, Manifest, ManifestModel, Text,
};
use crate::workspace::owner::{
    covers, is_listed, listed_among, owner_is_the_deepest, owner_of, Path,
};
use crate::workspace::roots::{
    all_files, built_outside, built_roots, command_files, commanded, has_vite_config, is_vite_root,
    package_with_name, rooting, vite_roots, word_path,
};
use crate::workspace::tasks::{
    concerned, followed, scripted, selected_targets, task_closure, task_follows, Tasks,
};
use crate::workspace::testing::{test_files, worker_package, workers_named};
use crate::workspace::workers::{refers_to, worker_names, worker_references};
use crate::workspace::{Package, Target};

verus! {

/// The targets of a selection start from the entrypoints of the selected packages, in the order
/// of the packages; a package without an entrypoint has none.
pub proof fn targets_start_from_entrypoints(
    packages: Seq<Package>,
    selected: Set<Text>,
    n: int,
    name: Text,
    path: Path,
)
    requires
        0 <= n <= packages.len(),
    ensures
        selected_targets(packages, selected, n).contains((name, path)) <==> selected.contains(name)
            && exists|i: int|
            0 <= i < n && (#[trigger] packages[i]).name@ == name && (
            packages[i].entrypoint matches Some(p) && p@ == path),
    decreases n,
{
    let list = selected_targets(packages, selected, n);
    if n > 0 {
        targets_start_from_entrypoints(packages, selected, n - 1, name, path);
        let before = selected_targets(packages, selected, n - 1);
        let last = packages[n - 1];
        let e = (name, path);
        if before.contains(e) && list != before {
            let k = choose|k: int| 0 <= k < before.len() && before[k] == e;
            assert(list[k] == e);
        }
        if list.contains(e) && !before.contains(e) {
            let k = choose|k: int| 0 <= k < list.len() && list[k] == e;
            assert(k == before.len());
            assert(packages[n - 1].name@ == name);
        }
        if last.entrypoint is Some && last.name@ == name && last.entrypoint->0@ == path
            && selected.contains(name) {
            assert(list[before.len() as int] == e);
        }
    }
}

/// The targets of a script are those of the packages that have it; `all` stands for every
/// package.
pub proof fn scripts_select_packages(packages: Seq<Package>, script: Text, name: Text)
    ensures
        scripted(packages, script).contains(name) <==> exists|i: int|
            0 <= i < packages.len() && (#[trigger] packages[i]).name@ == name && (script == "all"@
                || packages[i].scripts@.dom().contains(script)),
{
}

/// A task concerns the packages below the root that have a script for a task that it runs, and
/// all packages below the root where it is `all`.
pub proof fn tasks_concern_packages_with_their_scripts(
    root: Path,
    packages: Seq<Package>,
    tasks: Tasks,
    task: Text,
    name: Text,
)
    ensures
        concerned(root, packages, task, task_closure(tasks, task)).contains(name) <==> exists|i: int|
            {
                &&& 0 <= i < packages.len()
                &&& (#[trigger] packages[i]).name@ == name
                &&& packages[i].dir@ != root
                &&& task == "all"@ || exists|script: Text|
                    #[trigger] packages[i].scripts@.dom().contains(script) && reaches(
                        task_follows(tasks),
                        task,
                        script,
                    )
            },
{
    let names = task_closure(tasks, task);
    if concerned(root, packages, task, names).contains(name) {
        let i = choose|i: int|
            0 <= i < packages.len() && (#[trigger] packages[i]).name@ == name
                && crate::workspace::tasks::is_concerned(root, packages[i], task, names);
        if task != "all"@ {
            let script = choose|script: Text| #[trigger]
                names.contains(script) && packages[i].scripts@.dom().contains(script);
            assert(packages[i].scripts@.dom().contains(script));
        }
        assert(packages[i].name@ == name);
    }
    if exists|i: int|
        {
            &&& 0 <= i < packages.len()
            &&& (#[trigger] packages[i]).name@ == name
            &&& packages[i].dir@ != root
            &&& task == "all"@ || exists|script: Text|
                #[trigger] packages[i].scripts@.dom().contains(script) && reaches(
                    task_follows(tasks),
                    task,
                    script,
                )
        } {
        let i = choose|i: int|
            {
                &&& 0 <= i < packages.len()
                &&& (#[trigger] packages[i]).name@ == name
                &&& packages[i].dir@ != root
                &&& task == "all"@ || exists|script: Text|
                    #[trigger] packages[i].scripts@.dom().contains(script) && reaches(
                        task_follows(tasks),
                        task,
                        script,
                    )
            };
        if task != "all"@ {
            let script = choose|script: Text|
                #[trigger] packages[i].scripts@.dom().contains(script) && reaches(
                    task_follows(tasks),
                    task,
                    script,
                );
            assert(names.contains(script));
        }
        assert(crate::workspace::tasks::is_concerned(root, packages[i], task, names));
    }
}

/// What a task depends on is the task of that name, with or without the mark for the packages
/// that this one depends on; variables and tasks of a single package are not followed.
pub proof fn tasks_follow_plain_names(name: Text)
    requires
        name.len() > 0,
        name[0] != '^',
    ensures
        name[0] != '$' && !name.contains('#') ==> followed(name) == Some(name) && followed("^"@ + name)
            == Some(name),
        name[0] == '$' || name.contains('#') ==> followed(name) is None && followed("^"@ + name) is None,
{
    reveal_strlit("^");
    assert(("^"@ + name).skip(1) =~= name);
    reveal_with_fuel(crate::text::without_leading, 2);
}

/// A path leads to a test where a part of it is a directory for tests, or the name of the file
/// in front of its extension ends in `.test` or `.spec`.
pub proof fn tests_are_told_by_their_paths(path: Path)
    ensures
        is_test_path(path) <==> {
            ||| path.contains("test"@)
            ||| path.contains("tests"@)
            ||| path.contains("__tests__"@)
            ||| (stem_of(path) matches Some(stem) && (".test"@.is_suffix_of(stem)
                || ".spec"@.is_suffix_of(stem)))
        },
{
    if path.contains("test"@) {
        let i = choose|i: int| 0 <= i < path.len() && path[i] == "test"@;
        assert(crate::parser::assemble::is_test_directory(path[i]));
    }
    if path.contains("tests"@) {
        let i = choose|i: int| 0 <= i < path.len() && path[i] == "tests"@;
        assert(crate::parser::assemble::is_test_directory(path[i]));
    }
    if path.contains("__tests__"@) {
        let i = choose|i: int| 0 <= i < path.len() && path[i] == "__tests__"@;
        assert(crate::parser::assemble::is_test_directory(path[i]));
    }
}

/// The sources of a workspace are the modules among the found files that lie below a package and,
/// unless tests are wanted, are no tests of the deepest such package.
pub proof fn sources_lie_below_packages(
    packages: Seq<Package>,
    found: Seq<Path>,
    include_tests: bool,
    n: int,
    path: Path,
)
    requires
        0 <= n <= found.len(),
    ensures
        listed_among(packages, found, include_tests, n).contains(path) <==> found.take(n).contains(path)
            && is_source_extension(extension_of(path)) && exists|i: int|
            {
                &&& owner_of(packages, path) == Some(i)
                &&& 0 <= i < packages.len()
                &&& (#[trigger] packages[i]).dir@.is_prefix_of(path)
                &&& include_tests || !is_test_path(path.skip(packages[i].dir@.len() as int))
            },
    decreases n,
{
    owner_is_the_deepest(packages, path, packages.len() as int);
    let list = listed_among(packages, found, include_tests, n);
    assert(is_listed(packages, path, include_tests) == (is_source_extension(extension_of(path))
        && exists|i: int|
        {
            &&& owner_of(packages, path) == Some(i)
            &&& 0 <= i < packages.len()
            &&& (#[trigger] packages[i]).dir@.is_prefix_of(path)
            &&& include_tests || !is_test_path(path.skip(packages[i].dir@.len() as int))
        })) by {
        if let Some(i) = owner_of(packages, path) {
            assert(covers(packages[i], path));
        }
    }
    if n > 0 {
        sources_lie_below_packages(packages, found, include_tests, n - 1, path);
        let before = listed_among(packages, found, include_tests, n - 1);
        assert(found.take(n) =~= found.take(n - 1).push(found[n - 1]));
        if before.contains(path) {
            let k = choose|k: int| 0 <= k < before.len() && before[k] == path;
            assert(list[k] == path);
        }
        if list.contains(path) && !before.contains(path) {
            let k = choose|k: int| 0 <= k < list.len() && list[k] == path;
            assert(k == before.len());
        }
        if found.take(n - 1).contains(path) {
            let front = found.take(n - 1);
            let k = choose|k: int| 0 <= k < front.len() && front[k] == path;
            assert(found.take(n)[k] == path);
        }
        if found[n - 1] == path {
            assert(found.take(n)[n - 1] == path);
            if is_listed(packages, path, include_tests) {
                assert(list[before.len() as int] == path);
            }
        }
        if found.take(n).contains(path) && found[n - 1] != path {
            let front = found.take(n);
            let k = choose|k: int| 0 <= k < front.len() && front[k] == path;
            assert(found.take(n - 1)[k] == path);
        }
    }
}

/// A package depends on what any of the four tables of its manifest names.
pub proof fn manifests_depend_on_all_their_tables(m: Manifest, name: Text)
    ensures
        m@.dependencies.contains(name) <==> {
            ||| m.dependencies@.dom().contains(name)
            ||| m.dev_dependencies@.dom().contains(name)
            ||| m.peer_dependencies@.dom().contains(name)
            ||| m.optional_dependencies@.dom().contains(name)
        },
{
}

/// A package has the name, the scripts and the dependencies of its manifest, and one without a
/// name that of its directory.
pub proof fn packages_are_as_their_manifests_say(
    dir: Path,
    m: ManifestModel,
    config: Option<DataModel>,
    disk: DiskFacts,
)
    ensures
        m.name matches Some(name) ==> package_of(dir, m, config, disk).name == name,
        m.name is None ==> (name_of(dir) matches Some(name) ==> package_of(dir, m, config, disk).name
            == name),
        package_of(dir, m, config, disk).dir == dir,
        package_of(dir, m, config, disk).scripts == m.scripts,
        package_of(dir, m, config, disk).dependencies == m.dependencies,
{
}

/// A table of a configuration has `value` under `name`.
pub open spec fn has_under(d: DataModel, name: Text, value: DataModel) -> bool {
    exists|i: int| #[trigger] is_first_under(d, name, value, i)
}

/// A table has nothing under `name`.
pub open spec fn lacks(d: DataModel, name: Text) -> bool {
    forall|value: DataModel| !#[trigger] has_under(d, name, value)
}

pub open spec fn is_first_under(d: DataModel, name: Text, value: DataModel, i: int) -> bool {
    &&& d matches DataModel::Table(entries)
    &&& 0 <= i < entries.len()
    &&& entries[i] == (DataModel::Text(name), value)
    &&& forall|k: int| 0 <= k < i ==> (#[trigger] entries[k]).0 != DataModel::Text(name)
}

proof fn first_under_is_named(d: DataModel, name: Text, value: DataModel)
    requires
        has_under(d, name, value),
    ensures
        d is Table,
        entry_named(d->Table_0, name) matches Some(k) && 0 <= k < d->Table_0.len() && d->Table_0[k].1
            == value,
{
    let i = choose|i: int| #[trigger] is_first_under(d, name, value, i);
    let entries = d->Table_0;
    let p = has_name(entries, name);
    first_from_fits(p, 0, entries.len() as int);
    assert(p(i));
    match first_from(p, 0, entries.len() as int) {
        Some(k) => {
            if k < i {
                assert(entries[k].0 != DataModel::Text(name));
                assert(p(k));
            }
            if i < k {
                assert(!p(i));
            }
        },
        None => {},
    }
}

proof fn absent_is_not_named(d: DataModel, name: Text)
    requires
        d is Table,
        lacks(d, name),
    ensures
        entry_named(d->Table_0, name) is None,
{
    let entries = d->Table_0;
    let p = has_name(entries, name);
    first_from_fits(p, 0, entries.len() as int);
    if let Some(k) = first_from(p, 0, entries.len() as int) {
        assert forall|j: int| 0 <= j < k implies (#[trigger] entries[j]).0 != DataModel::Text(name) by {
            assert(!p(j));
        }
        assert(p(k));
        assert(is_first_under(d, name, entries[k].1, k));
        assert(has_under(d, name, entries[k].1));
    }
}

/// A worker starts from the file that its configuration names, whatever its manifest says.
pub proof fn workers_start_where_they_are_configured(
    dir: Path,
    m: ManifestModel,
    config: DataModel,
    disk: DiskFacts,
    main: Text,
)
    requires
        has_under(config, "main"@, DataModel::Text(main)),
    ensures
        package_of(dir, m, Some(config), disk).entrypoint == Some(joined_path(dir, components(main))),
{
    first_under_is_named(config, "main"@, DataModel::Text(main));
}

/// Place `k` in the order in which a package looks for the file it starts from: the `source`, the
/// `module` and the `main` of its manifest, its root export, then files with usual names.
pub open spec fn may_start(dir: Path, m: ManifestModel, k: int, path: Path) -> bool {
    ||| k == 0 && (m.source matches Some(t) && path == below(dir, t))
    ||| k == 1 && (m.module matches Some(t) && path == below(dir, t))
    ||| k == 2 && (m.main matches Some(t) && path == below(dir, t))
    ||| k == 3 && (m.exports matches Some(d) && root_export(d) matches Some(t) && path == below(dir, t))
    ||| k == 4 && path == joined_path(dir, components("src/index.ts"@))
    ||| k == 5 && path == joined_path(dir, components("src/index.tsx"@))
    ||| k == 6 && path == joined_path(dir, components("index.ts"@))
    ||| k == 7 && path == joined_path(dir, components("worker.ts"@))
    ||| k == 8 && path == joined_path(dir, components("src/worker.ts"@))
    ||| k == 9 && path == joined_path(dir, components("src/main.ts"@))
}

/// How many places before `k` there is something to look for.
spec fn places_before(m: ManifestModel, k: int) -> int {
    let source = if k > 0 && m.source is Some {
        1int
    } else {
        0
    };
    let module = if k > 1 && m.module is Some {
        1int
    } else {
        0
    };
    let main = if k > 2 && m.main is Some {
        1int
    } else {
        0
    };
    let exports = if k > 3 && m.exports is Some && root_export(m.exports->0) is Some {
        1int
    } else {
        0
    };
    source + module + main + exports + if k > 4 {
        k - 4
    } else {
        0
    }
}

proof fn places_are_candidates(dir: Path, m: ManifestModel, k: int, path: Path)
    requires
        may_start(dir, m, k, path),
    ensures
        0 <= places_before(m, k) < entry_candidates(dir, m).len(),
        entry_candidates(dir, m)[places_before(m, k)] == path,
{
}

proof fn candidates_are_places(dir: Path, m: ManifestModel, i: int) -> (k: int)
    requires
        0 <= i < entry_candidates(dir, m).len(),
    ensures
        may_start(dir, m, k, entry_candidates(dir, m)[i]),
        places_before(m, k) == i,
{
    if m.source is Some && i == 0 {
        0
    } else if m.module is Some && i == places_before(m, 1) {
        1
    } else if m.main is Some && i == places_before(m, 2) {
        2
    } else if m.exports is Some && root_export(m.exports->0) is Some && i == places_before(m, 3) {
        3
    } else {
        i - places_before(m, 4) + 4
    }
}

/// A package whose configuration names no file starts from the first of the files it looks for
/// that is there.
pub proof fn packages_start_from_the_first_file(
    dir: Path,
    m: ManifestModel,
    config: Option<DataModel>,
    disk: DiskFacts,
    k: int,
    path: Path,
)
    requires
        worker_entry(dir, config) is None,
        may_start(dir, m, k, path),
        disk.files@.contains(path),
        forall|j: int, other: Path| #[trigger]
            may_start(dir, m, j, other) && j < k ==> !disk.files@.contains(other),
    ensures
        package_of(dir, m, config, disk).entrypoint == Some(path),
{
    let list = entry_candidates(dir, m);
    let p = is_file_at(disk, list);
    let at = places_before(m, k);
    places_are_candidates(dir, m, k, path);
    first_from_fits(p, 0, list.len() as int);
    assert(p(at));
    if let Some(i) = first_from(p, 0, list.len() as int) {
        if i < at {
            let j = candidates_are_places(dir, m, i);
            assert(p(i));
            assert(may_start(dir, m, j, list[i]));
            assert(j < k);
        }
        if at < i {
            assert(!p(at));
        }
    }
}

/// A package without a configured file and none of whose files is there starts from nothing.
pub proof fn packages_may_start_from_nothing(
    dir: Path,
    m: ManifestModel,
    config: Option<DataModel>,
    disk: DiskFacts,
)
    requires
        worker_entry(dir, config) is None,
        forall|j: int, other: Path| #[trigger]
            may_start(dir, m, j, other) ==> !disk.files@.contains(other),
    ensures
        package_of(dir, m, config, disk).entrypoint is None,
{
    let list = entry_candidates(dir, m);
    let p = is_file_at(disk, list);
    first_from_fits(p, 0, list.len() as int);
    if let Some(i) = first_from(p, 0, list.len() as int) {
        let j = candidates_are_places(dir, m, i);
        assert(p(i));
        assert(may_start(dir, m, j, list[i]));
    }
}

/// An export that is a text leads to that file; of a table of conditions, the first of `source`,
/// `import`, `default` and `types` that leads somewhere counts.
pub proof fn exports_lead_by_condition(d: DataModel, value: DataModel, path: Text)
    requires
        d is Table,
        export_path(value) == Some(path),
    ensures
        export_path(DataModel::Text(path)) == Some(path),
        has_under(d, "source"@, value) ==> export_path(d) == Some(path),
        lacks(d, "source"@) && has_under(d, "import"@, value) ==> export_path(d) == Some(path),
        lacks(d, "source"@) && lacks(d, "import"@) && has_under(d, "default"@, value) ==> export_path(d)
            == Some(path),
        lacks(d, "source"@) && lacks(d, "import"@) && lacks(d, "default"@) && has_under(
            d,
            "types"@,
            value,
        ) ==> export_path(d) == Some(path),
{
    reveal_with_fuel(export_path, 2);
    assert(export_path(DataModel::Text(path)) == Some(path));
    if has_under(d, "source"@, value) {
        first_under_is_named(d, "source"@, value);
    }
    if lacks(d, "source"@) {
        absent_is_not_named(d, "source"@);
    }
    if lacks(d, "import"@) {
        absent_is_not_named(d, "import"@);
    }
    if lacks(d, "default"@) {
        absent_is_not_named(d, "default"@);
    }
    if has_under(d, "import"@, value) {
        first_under_is_named(d, "import"@, value);
    }
    if has_under(d, "default"@, value) {
        first_under_is_named(d, "default"@, value);
    }
    if has_under(d, "types"@, value) {
        first_under_is_named(d, "types"@, value);
    }
}

/// Each subpath of a package's exports leads to its file: the last entry with that key counts.
pub proof fn subpaths_lead_to_their_files(
    dir: Path,
    entries: Seq<(DataModel, DataModel)>,
    i: int,
    key: Text,
    path: Text,
)
    requires
        0 <= i < entries.len(),
        entries[i].0 == DataModel::Text(key),
        key.len() > 0 && key[0] == '.',
        export_path(entries[i].1) == Some(path),
        forall|j: int| i < j < entries.len() ==> (#[trigger] entries[j]).0 != DataModel::Text(key),
    ensures
        package_exports(dir, Some(DataModel::Table(entries))).dom().contains(key),
        package_exports(dir, Some(DataModel::Table(entries)))[key] == below(dir, path),
{
    assert(crate::workspace::manifest::is_dotted(entries[i].0));
    assert(has_dotted(entries));
    exported_up_to(dir, entries, i, key, path, entries.len() as int);
}

proof fn exported_up_to(
    dir: Path,
    entries: Seq<(DataModel, DataModel)>,
    i: int,
    key: Text,
    path: Text,
    n: int,
)
    requires
        0 <= i < n <= entries.len(),
        entries[i].0 == DataModel::Text(key),
        export_path(entries[i].1) == Some(path),
        forall|j: int| i < j < entries.len() ==> (#[trigger] entries[j]).0 != DataModel::Text(key),
    ensures
        exported_files(dir, entries, n).dom().contains(key),
        exported_files(dir, entries, n)[key] == below(dir, path),
    decreases n,
{
    if n - 1 > i {
        exported_up_to(dir, entries, i, key, path, n - 1);
        assert(entries[n - 1].0 != DataModel::Text(key));
    }
}

/// A package with a single export exports it as the package itself.
pub proof fn single_exports_are_the_package(dir: Path, path: Text)
    ensures
        package_exports(dir, Some(DataModel::Text(path))) == Map::<Text, Path>::empty().insert(
            "."@,
            below(dir, path),
        ),
        package_exports(dir, None) == Map::<Text, Path>::empty(),
{
}

/// The root export of a table of subpaths is that of `.`.
pub proof fn root_exports_are_under_the_dot(d: DataModel, value: DataModel)
    requires
        has_under(d, "."@, value),
    ensures
        root_export(d) == export_path(value),
{
    first_under_is_named(d, "."@, value);
}

/// A file of a package that a build with Vite starts from: one below `src`, `app` or `routes`, or
/// a configuration of Vite.
pub open spec fn is_built_from(dir: Path, path: Path) -> bool {
    let inner = path.skip(dir.len() as int);
    &&& dir.is_prefix_of(path)
    &&& {
        ||| inner.len() > 0 && (inner[0] == "src"@ || inner[0] == "app"@ || inner[0] == "routes"@)
        ||| (name_of(inner) matches Some(name) && "vite.config."@.is_prefix_of(name))
    }
}

proof fn vite_roots_are_built_from(files: Seq<Path>, dir: Path, n: int, path: Path)
    requires
        0 <= n <= files.len(),
    ensures
        vite_roots(files, dir, n).contains(path) <==> files.take(n).contains(path) && is_built_from(
            dir,
            path,
        ),
    decreases n,
{
    let list = vite_roots(files, dir, n);
    if n > 0 {
        vite_roots_are_built_from(files, dir, n - 1, path);
        let before = vite_roots(files, dir, n - 1);
        let front = files.take(n - 1);
        assert(files.take(n) =~= front.push(files[n - 1]));
        assert(is_vite_root(dir, files[n - 1]) == is_built_from(dir, files[n - 1]));
        if before.contains(path) {
            let k = choose|k: int| 0 <= k < before.len() && before[k] == path;
            assert(list[k] == path);
        }
        if list.contains(path) && !before.contains(path) {
            let k = choose|k: int| 0 <= k < list.len() && list[k] == path;
            assert(k == before.len());
            assert(files.take(n)[n - 1] == path);
        }
        if front.contains(path) {
            let k = choose|k: int| 0 <= k < front.len() && front[k] == path;
            assert(files.take(n)[k] == path);
        }
        if files.take(n).contains(path) && !front.contains(path) {
            let whole = files.take(n);
            let k = choose|k: int| 0 <= k < whole.len() && whole[k] == path;
            if k < n - 1 {
                assert(front[k] == path);
            }
            if is_built_from(dir, path) {
                assert(list[before.len() as int] == path);
            }
        }
    }
}

/// The first package of a name.
pub open spec fn is_first_named(packages: Seq<Package>, name: Text, i: int) -> bool {
    &&& 0 <= i < packages.len()
    &&& packages[i].name@ == name
    &&& forall|k: int| 0 <= k < i ==> (#[trigger] packages[k]).name@ != name
}

proof fn first_named_is_found(packages: Seq<Package>, name: Text, i: int)
    requires
        is_first_named(packages, name, i),
    ensures
        package_with_name(packages, name) == Some(i),
{
    let p = crate::workspace::roots::is_named(packages, name);
    first_from_fits(p, 0, packages.len() as int);
    assert(p(i));
    if let Some(k) = first_from(p, 0, packages.len() as int) {
        if k < i {
            assert(p(k));
            assert(packages[k].name@ != name);
        }
        if i < k {
            assert(!p(i));
        }
    }
}

/// The configuration of Vite with some extension stands in a directory.
pub open spec fn is_built_by_vite(disk: DiskFacts, dir: Path) -> bool {
    exists|extension: Text|
        (extension == "ts"@ || extension == "mts"@ || extension == "cts"@ || extension == "js"@
            || extension == "mjs"@ || extension == "cjs"@) && disk.files@.contains(
            #[trigger] crate::workspace::roots::vite_config(dir, extension),
        )
}

/// A target whose entrypoint is no known file and whose package Vite builds is rooted in the
/// files of the package that the build starts from.
pub proof fn built_targets_have_the_roots_of_their_build(
    packages: Seq<Package>,
    targets: Seq<Target>,
    files: Seq<Path>,
    disk: DiskFacts,
    t: int,
    i: int,
    path: Path,
)
    requires
        0 <= t < targets.len(),
        forall|k: int| 0 <= k < files.len() ==> normal(disk, #[trigger] files[k]) != normal(
            disk,
            targets[t].entrypoint@,
        ),
        is_first_named(packages, targets[t].package@, i),
        is_built_by_vite(disk, packages[i].dir@),
        files.contains(path),
        is_built_from(packages[i].dir@, path),
    ensures
        built_roots(packages, targets, files, disk, targets.len() as int).dom().contains(
            targets[t].package@,
        ),
        built_roots(
            packages,
            targets,
            files,
            disk,
            targets.len() as int,
        )[targets[t].package@].contains(path),
{
    let dir = packages[i].dir@;
    first_named_is_found(packages, targets[t].package@, i);
    vite_roots_are_built_from(files, dir, files.len() as int, path);
    assert(files.take(files.len() as int) =~= files);
    assert(has_vite_config(disk, dir));
    assert(rooting(packages, files, disk, targets[t]) is Vite);
    built_roots_hold(packages, targets, files, disk, t, i, targets.len() as int);
}

proof fn built_roots_hold(
    packages: Seq<Package>,
    targets: Seq<Target>,
    files: Seq<Path>,
    disk: DiskFacts,
    t: int,
    i: int,
    n: int,
)
    requires
        0 <= t < n <= targets.len(),
        rooting(packages, files, disk, targets[t]) is Vite,
        package_with_name(packages, targets[t].package@) == Some(i),
    ensures
        built_roots(packages, targets, files, disk, n).dom().contains(targets[t].package@),
        built_roots(packages, targets, files, disk, n)[targets[t].package@] == vite_roots(
            files,
            packages[i].dir@,
            files.len() as int,
        ),
    decreases n,
{
    if n - 1 > t {
        built_roots_hold(packages, targets, files, disk, t, i, n - 1);
    }
}

/// A target whose entrypoint is no known file, whose package Vite does not build and whose
/// directory holds `Cargo.toml` is built by Cargo.
pub proof fn targets_of_cargo_are_built_outside(
    packages: Seq<Package>,
    targets: Seq<Target>,
    files: Seq<Path>,
    disk: DiskFacts,
    t: int,
    i: int,
)
    requires
        0 <= t < targets.len(),
        forall|k: int| 0 <= k < files.len() ==> normal(disk, #[trigger] files[k]) != normal(
            disk,
            targets[t].entrypoint@,
        ),
        is_first_named(packages, targets[t].package@, i),
        !is_built_by_vite(disk, packages[i].dir@),
        disk.files@.contains(joined_path(packages[i].dir@, components("Cargo.toml"@))),
    ensures
        built_outside(packages, targets, files, disk).contains(targets[t].package@),
{
    let dir = packages[i].dir@;
    first_named_is_found(packages, targets[t].package@, i);
    assert(!has_vite_config(disk, dir));
    assert(rooting(packages, files, disk, targets[t]) is Cargo);
    assert(targets[t].package@ == targets[t].package@);
}

/// A target whose entrypoint is a known file is neither.
pub proof fn known_targets_are_not_built(
    packages: Seq<Package>,
    targets: Seq<Target>,
    files: Seq<Path>,
    disk: DiskFacts,
    k: int,
    name: Text,
)
    requires
        0 <= k < files.len(),
        forall|t: int| 0 <= t < targets.len() && (#[trigger] targets[t]).package@ == name ==> normal(
            disk,
            targets[t].entrypoint@,
        ) == normal(disk, files[k]),
    ensures
        !built_outside(packages, targets, files, disk).contains(name),
{
    assert forall|t: int| 0 <= t < targets.len() && (#[trigger] targets[t]).package@ == name implies !(
    rooting(packages, files, disk, targets[t]) is Cargo) by {
        assert(normal(disk, files[k]) == normal(disk, targets[t].entrypoint@));
    }
}

/// A file that tests of a package start from by its name: a test, or a configuration of Vitest or
/// Jest.
pub open spec fn starts_tests(path: Path) -> bool {
    ||| is_test_path(path)
    ||| (name_of(path) matches Some(name) && ("vitest.config."@.is_prefix_of(name)
        || "vitest.workspace."@.is_prefix_of(name) || "jest.config."@.is_prefix_of(name)))
}

/// Package `j` is the last whose configuration gives the worker that name, with an entrypoint.
pub open spec fn is_last_worker(
    packages: Seq<Package>,
    configs: Seq<Option<Data>>,
    worker: Text,
    j: int,
) -> bool {
    &&& 0 <= j < packages.len()
    &&& packages[j].entrypoint is Some
    &&& configs[j] matches Some(d)
    &&& worker_names(d@).contains(worker)
    &&& forall|k: int|
        j < k < packages.len() && (#[trigger] packages[k]).entrypoint is Some && configs[k] is Some
            ==> !worker_names(configs[k]->0@).contains(worker)
}

/// Package `i` refers to a worker of another package, `j`, that starts from `path`.
pub open spec fn tests_worker(
    packages: Seq<Package>,
    configs: Seq<Option<Data>>,
    i: int,
    j: int,
    worker: Text,
    path: Path,
) -> bool {
    &&& 0 <= i < packages.len()
    &&& configs[i] matches Some(d)
    &&& worker_references(d@).contains(worker)
    &&& is_last_worker(packages, configs, worker, j)
    &&& packages[j].name@ != packages[i].name@
    &&& packages[j].entrypoint->0@ == path
}

/// The tests of a package that has the script start from its own test files, and from the
/// entrypoints of the workers of other packages that its configuration refers to.
pub proof fn tests_start_from_test_files_and_workers(
    packages: Seq<Package>,
    configs: Seq<Option<Data>>,
    script: Text,
    files: Seq<Path>,
    name: Text,
    path: Path,
)
    ensures
        test_files(packages, configs, script, files).contains((name, path)) <==> {
            &&& exists|k: int|
                0 <= k < packages.len() && (#[trigger] packages[k]).name@ == name
                    && packages[k].scripts@.dom().contains(script)
            &&& {
                ||| files.contains(path) && exists|i: int|
                    {
                        &&& owner_of(packages, path) == Some(i)
                        &&& 0 <= i < packages.len()
                        &&& (#[trigger] packages[i]).name@ == name
                        &&& packages[i].dir@.is_prefix_of(path)
                        &&& starts_tests(path.skip(packages[i].dir@.len() as int))
                    }
                ||| exists|i: int, j: int, worker: Text| #[trigger]
                    tests_worker(packages, configs, i, j, worker, path) && packages[i].name@ == name
            }
        },
{
    owner_is_the_deepest(packages, path, packages.len() as int);
    if let Some(i) = owner_of(packages, path) {
        assert(covers(packages[i], path));
        assert(packages[i].name@ == packages[i].name@);
    }
    let n = packages.len() as int;
    if crate::workspace::testing::is_used_worker(packages, configs, script, name, path) {
        let (i, worker) = choose|i: int, worker: Text|
            0 <= i < packages.len() && packages[i].name@ == name
                && crate::workspace::testing::runs_script(packages, script, name) && #[trigger]
            crate::workspace::testing::uses_worker(packages, configs, i, worker, path);
        let p = workers_named(packages, configs, worker);
        last_before_fits(p, n);
        let j = worker_package(packages, configs, worker, n)->0;
        assert(p(j));
        assert forall|k: int|
            j < k < packages.len() && (#[trigger] packages[k]).entrypoint is Some && configs[k] is Some implies !worker_names(
            configs[k]->0@,
        ).contains(worker) by {
            assert(!p(k));
        }
        assert(tests_worker(packages, configs, i, j, worker, path));
    }
    if exists|i: int, j: int, worker: Text| #[trigger]
        tests_worker(packages, configs, i, j, worker, path) && packages[i].name@ == name {
        let (i, j, worker) = choose|i: int, j: int, worker: Text| #[trigger]
            tests_worker(packages, configs, i, j, worker, path) && packages[i].name@ == name;
        let p = workers_named(packages, configs, worker);
        last_before_fits(p, n);
        assert(p(j));
        if let Some(k) = worker_package(packages, configs, worker, n) {
            assert(p(k));
            if k < j {
                assert(!p(j));
            }
            if j < k {
                assert(packages[k].entrypoint is Some);
            }
        }
        assert(crate::workspace::testing::uses_worker(packages, configs, i, worker, path));
    }
}

/// With all files, a task starts from every file of the selected packages.
pub proof fn tasks_may_start_from_all_files(
    packages: Seq<Package>,
    selected: Set<Text>,
    files: Seq<Path>,
    name: Text,
    path: Path,
)
    ensures
        all_files(packages, selected, files).contains((name, path)) <==> {
            &&& selected.contains(name)
            &&& files.contains(path)
            &&& owner_of(packages, path) matches Some(i)
            &&& packages[i].name@ == name
        },
{
}

/// Without them, a task starts from the source files that the commands of the selected packages
/// name.
pub proof fn tasks_start_from_the_files_of_their_commands(
    packages: Seq<Package>,
    selected: Set<Text>,
    tasks: Set<Text>,
    disk: DiskFacts,
    i: int,
    task: Text,
    word: int,
    path: Path,
)
    requires
        0 <= i < packages.len(),
        selected.contains(packages[i].name@),
        tasks.contains(task),
        packages[i].scripts@.dom().contains(task),
    ensures
        commanded(packages, selected, tasks).contains(packages[i].name@),
        ({
            &&& 0 <= word < words(packages[i].scripts@[task]@).len()
            &&& path == word_path(packages[i].dir@, words(packages[i].scripts@[task]@)[word])
            &&& is_source_extension(extension_of(path))
            &&& disk.files@.contains(path)
        }) ==> command_files(packages, selected, tasks, disk).contains((packages[i].name@, path)),
{
    assert(crate::workspace::roots::has_command(packages[i], selected, tasks, task));
    let list = words(packages[i].scripts@[task]@);
    if 0 <= word < list.len() {
        assert(word_path(packages[i].dir@, list[word]) == word_path(packages[i].dir@, list[word]));
    }
}

/// A task without all files starts from nothing else.
pub proof fn tasks_start_from_nothing_else(
    packages: Seq<Package>,
    selected: Set<Text>,
    tasks: Set<Text>,
    disk: DiskFacts,
    name: Text,
    path: Path,
)
    requires
        command_files(packages, selected, tasks, disk).contains((name, path)),
    ensures
        selected.contains(name),
        is_source_extension(extension_of(path)),
        disk.files@.contains(path),
        exists|i: int, task: Text|
            {
                &&& 0 <= i < packages.len()
                &&& packages[i].name@ == name
                &&& tasks.contains(task)
                &&& #[trigger] packages[i].scripts@.dom().contains(task)
                &&& exists|word: int|
                    0 <= word < words(packages[i].scripts@[task]@).len() && path == word_path(
                        packages[i].dir@,
                        #[trigger] words(packages[i].scripts@[task]@)[word],
                    )
            },
{
    let (i, task) = choose|i: int, task: Text|
        {
            &&& 0 <= i < packages.len()
            &&& packages[i].name@ == name
            &&& #[trigger] crate::workspace::roots::has_command(packages[i], selected, tasks, task)
            &&& crate::workspace::roots::command_names(
                disk,
                packages[i].dir@,
                packages[i].scripts@[task]@,
                path,
            )
        };
    assert(packages[i].scripts@.dom().contains(task));
}

/// A worker is known by the name of its configuration and by the names of its environments.
pub proof fn workers_have_the_names_of_their_environments(
    d: DataModel,
    envs: DataModel,
    i: int,
    name: Text,
)
    ensures
        has_under(d, "name"@, DataModel::Text(name)) ==> worker_names(d).contains(name),
        has_under(d, "env"@, envs) && envs is Table && 0 <= i < envs->Table_0.len() && has_under(
            envs->Table_0[i].1,
            "name"@,
            DataModel::Text(name),
        ) ==> worker_names(d).contains(name),
{
    if has_under(d, "name"@, DataModel::Text(name)) {
        first_under_is_named(d, "name"@, DataModel::Text(name));
    }
    if has_under(d, "env"@, envs) && envs is Table && 0 <= i < envs->Table_0.len() && has_under(
        envs->Table_0[i].1,
        "name"@,
        DataModel::Text(name),
    ) {
        first_under_is_named(d, "env"@, envs);
        first_under_is_named(envs->Table_0[i].1, "name"@, DataModel::Text(name));
        let all = crate::workspace::workers::environments(d);
        assert(all == envs->Table_0);
        assert(crate::workspace::workers::text_under(all[i].1, "name"@) == Some(name));
    }
}

/// A configuration refers to a worker by `service`, `script_name` or `scriptName`, at any depth.
pub proof fn references_stand_at_any_depth(
    entries: Seq<(DataModel, DataModel)>,
    items: Seq<DataModel>,
    i: int,
    name: Text,
)
    ensures
        0 <= i < entries.len() && entries[i].1 == DataModel::Text(name) && (entries[i].0
            == DataModel::Text("service"@) || entries[i].0 == DataModel::Text("script_name"@)
            || entries[i].0 == DataModel::Text("scriptName"@)) ==> worker_references(
            DataModel::Table(entries),
        ).contains(name),
        0 <= i < entries.len() && worker_references(entries[i].1).contains(name) ==> worker_references(
            DataModel::Table(entries),
        ).contains(name),
        0 <= i < items.len() && worker_references(items[i]).contains(name) ==> worker_references(
            DataModel::List(items),
        ).contains(name),
{
    let table = DataModel::Table(entries);
    let list = DataModel::List(items);
    if 0 <= i < entries.len() {
        assert(table->Table_0[i] == entries[i]);
    }
    if 0 <= i < items.len() && refers_to(items[i], name) {
        assert(list->List_0[i] == items[i]);
        assert(refers_to(list, name));
    }
}

} // verus!
