//! The files from which the tests of a package start.
use vstd::prelude::*;

use crate::collections::{last_before, pairs, KeyMap, KeySet};
use crate::data::Data;
use crate::order::{models, Key};
use crate::parser::assemble::is_test_path;
use crate::parser::is_test_file;
use crate::path::{name_of, FilePath};
use crate::text::starts_with;
use crate::workspace::owner::{owner_index, owner_of, relative, relative_to, Path};
use crate::workspace::roots::{are_roots, list_roots};
use crate::workspace::tasks::Name;
use crate::workspace::workers::{
    list_worker_names, list_worker_references, worker_names, worker_references,
};
use crate::workspace::Package;

verus! {

/// A file that a test run reads: a test, or a configuration of a test runner.
pub open spec fn is_test_root(path: Path) -> bool {
    is_test_path(path) || match name_of(path) {
        Some(name) => "vitest.config."@.is_prefix_of(name) || "vitest.workspace."@.is_prefix_of(name)
            || "jest.config."@.is_prefix_of(name),
        None => false,
    }
}

fn is_test_input(path: &FilePath) -> (r: bool)
    ensures
        r == is_test_root(path@),
{
    if is_test_file(path) {
        return true;
    }
    match path.file_name() {
        Some(name) => starts_with(name.as_str(), "vitest.config.") || starts_with(
            name.as_str(),
            "vitest.workspace.",
        ) || starts_with(name.as_str(), "jest.config."),
        None => false,
    }
}

/// A package with this name has the script.
pub open spec fn runs_script(packages: Seq<Package>, script: Name, name: Name) -> bool {
    exists|i: int|
        0 <= i < packages.len() && (#[trigger] packages[i]).name@ == name
            && packages[i].scripts@.dom().contains(script)
}

/// A test input that belongs to the package `name`.
pub open spec fn is_own_test(packages: Seq<Package>, path: Path, name: Name) -> bool {
    match owner_of(packages, path) {
        Some(i) => packages[i].name@ == name && is_test_root(relative_to(path, packages[i].dir@)),
        None => false,
    }
}

/// Package `i` is the worker `worker`: its configuration names it so, and it has an entrypoint.
pub open spec fn is_worker(
    packages: Seq<Package>,
    configs: Seq<Option<Data>>,
    worker: Name,
    i: int,
) -> bool {
    packages[i].entrypoint is Some && configs[i] is Some && worker_names(configs[i]->0@).contains(
        worker,
    )
}

pub open spec fn workers_named(
    packages: Seq<Package>,
    configs: Seq<Option<Data>>,
    worker: Name,
) -> spec_fn(int) -> bool {
    |i: int| is_worker(packages, configs, worker, i)
}

/// The last package among the first `n` that is the worker `worker`.
pub open spec fn worker_package(
    packages: Seq<Package>,
    configs: Seq<Option<Data>>,
    worker: Name,
    n: int,
) -> Option<int> {
    last_before(workers_named(packages, configs, worker), n)
}

/// Package `i` refers to a worker of another package that starts from `path`.
pub open spec fn uses_worker(
    packages: Seq<Package>,
    configs: Seq<Option<Data>>,
    i: int,
    worker: Name,
    path: Path,
) -> bool {
    configs[i] is Some && worker_references(configs[i]->0@).contains(worker) && match worker_package(
        packages,
        configs,
        worker,
        packages.len() as int,
    ) {
        Some(j) => packages[j].name@ != packages[i].name@ && packages[j].entrypoint.model() == Some(path),
        None => false,
    }
}

/// A worker's entrypoint that tests of the package `name` run.
pub open spec fn is_used_worker(
    packages: Seq<Package>,
    configs: Seq<Option<Data>>,
    script: Name,
    name: Name,
    path: Path,
) -> bool {
    exists|i: int, worker: Name|
        0 <= i < packages.len() && packages[i].name@ == name && runs_script(packages, script, name)
            && #[trigger] uses_worker(packages, configs, i, worker, path)
}

/// The files from which tests start, under the names of the packages.
pub open spec fn test_files(
    packages: Seq<Package>,
    configs: Seq<Option<Data>>,
    script: Name,
    files: Seq<Path>,
) -> Set<(Name, Path)> {
    Set::new(
        |e: (Name, Path)|
            (runs_script(packages, script, e.0) && files.contains(e.1) && is_own_test(
                packages,
                e.1,
                e.0,
            )) || is_used_worker(packages, configs, script, e.0, e.1),
    )
}

/// The packages with a file from which tests start.
pub open spec fn tested(files: Set<(Name, Path)>) -> Set<Name> {
    Set::new(|name: Name| exists|p: Path| #[trigger] files.contains((name, p)))
}

fn list_running(packages: &Vec<Package>, script: &str) -> (r: KeySet<String>)
    ensures
        forall|n: Name| #[trigger] r@.contains(n) == runs_script(packages@, script@, n),
{
    let key = script.to_owned();
    let mut out: KeySet<String> = KeySet::new();
    let mut i: usize = 0;
    while i < packages.len()
        invariant
            i <= packages.len(),
            key@ == script@,
            forall|n: Name| #[trigger]
                out@.contains(n) == (exists|k: int|
                    0 <= k < i && (#[trigger] packages@[k]).name@ == n
                        && packages@[k].scripts@.dom().contains(script@)),
        decreases packages.len() - i,
    {
        let ghost before = out@;
        let fits = packages[i].scripts.contains_key(&key);
        if fits {
            out.insert(packages[i].name.clone());
        }
        proof {
            assert forall|n: Name| #[trigger]
                out@.contains(n) == (exists|k: int|
                    0 <= k < i + 1 && (#[trigger] packages@[k]).name@ == n
                        && packages@[k].scripts@.dom().contains(script@)) by {
                assert(before.contains(n) == (exists|k: int|
                    0 <= k < i && (#[trigger] packages@[k]).name@ == n
                        && packages@[k].scripts@.dom().contains(script@)));
                if fits && n == packages@[i as int].name@ {
                    assert(packages@[i as int].scripts@.dom().contains(script@));
                }
            }
        }
        i += 1;
    }
    out
}

/// The workers of all packages, with the numbers of the packages.
fn index_workers(packages: &Vec<Package>, configs: &Vec<Option<Data>>) -> (r: KeyMap<String, usize>)
    requires
        configs@.len() == packages@.len(),
    ensures
        forall|w: Name| #[trigger]
            r@.dom().contains(w) == worker_package(
                packages@,
                configs@,
                w,
                packages@.len() as int,
            ) is Some,
        forall|w: Name| #[trigger]
            r@.dom().contains(w) ==> r@[w] < packages@.len() && worker_package(
                packages@,
                configs@,
                w,
                packages@.len() as int,
            ) == Some(r@[w] as int) && is_worker(packages@, configs@, w, r@[w] as int),
{
    let mut out: KeyMap<String, usize> = KeyMap::new();
    let mut i: usize = 0;
    while i < packages.len()
        invariant
            i <= packages.len(),
            configs@.len() == packages@.len(),
            forall|w: Name| #[trigger]
                out@.dom().contains(w) == worker_package(packages@, configs@, w, i as int) is Some,
            forall|w: Name| #[trigger]
                out@.dom().contains(w) ==> out@[w] < i && worker_package(
                    packages@,
                    configs@,
                    w,
                    i as int,
                ) == Some(out@[w] as int) && is_worker(packages@, configs@, w, out@[w] as int),
        decreases packages.len() - i,
    {
        let ghost before = out@;
        let ghost mut named: Set<Name> = Set::empty();
        match (&packages[i].entrypoint, &configs[i]) {
            (Some(_), Some(config)) => {
                let names = list_worker_names(config);
                proof {
                    named = names@;
                }
                let count = names.len();
                let ghost list = names.list();
                let mut k: usize = 0;
                while k < count
                    invariant
                        k <= count,
                        i < packages.len(),
                        list == names.list(),
                        count == list.len(),
                        forall|w: Name| #[trigger]
                            out@.dom().contains(w) == (before.dom().contains(w) || list.take(
                                k as int,
                            ).to_set().contains(w)),
                        forall|w: Name| #[trigger]
                            out@.dom().contains(w) ==> out@[w] == (if list.take(
                                k as int,
                            ).to_set().contains(w) {
                                i
                            } else {
                                before[w]
                            }),
                    decreases count - k,
                {
                    out.insert(names.at(k).clone(), i);
                    proof {
                        assert(list.take(k + 1) =~= list.take(k as int).push(list[k as int]));
                        crate::collections::push_to_set(list.take(k as int), list[k as int]);
                    }
                    k += 1;
                }
                assert(list.take(count as int) =~= list);
                assert forall|w: Name| list.contains(w) == named.contains(w) by {
                    assert(names@.contains(w) == names.list().to_set().contains(w));
                }
            },
            _ => {},
        }
        proof {
            assert forall|w: Name| #[trigger] named.contains(w) == is_worker(
                packages@,
                configs@,
                w,
                i as int,
            ) by {}
            assert forall|w: Name| #[trigger]
                out@.dom().contains(w) == worker_package(packages@, configs@, w, i + 1) is Some by {
                assert(workers_named(packages@, configs@, w)(i as int) == named.contains(w));
                assert(before.dom().contains(w) == worker_package(packages@, configs@, w, i as int) is Some);
            }
            assert forall|w: Name| #[trigger] out@.dom().contains(w) implies out@[w] < i + 1
                && worker_package(packages@, configs@, w, i + 1) == Some(out@[w] as int) && is_worker(
                packages@,
                configs@,
                w,
                out@[w] as int,
            ) by {
                assert(workers_named(packages@, configs@, w)(i as int) == named.contains(w));
                if !named.contains(w) {
                    assert(before.dom().contains(w));
                }
            }
        }
        i += 1;
    }
    out
}

fn add_own_tests(
    packages: &Vec<Package>,
    running: &KeySet<String>,
    files: &Vec<FilePath>,
    script: &str,
) -> (r: KeyMap<String, KeySet<FilePath>>)
    requires
        forall|n: Name| #[trigger] running@.contains(n) == runs_script(packages@, script@, n),
    ensures
        forall|n: Name, p: Path| #[trigger]
            pairs::<String, FilePath>(r@).contains((n, p)) == (runs_script(packages@, script@, n)
                && models(files@).contains(p) && is_own_test(packages@, p, n)),
        r@.dom() == tested(pairs::<String, FilePath>(r@)),
{
    let ghost all = models(files@);
    let mut roots: KeyMap<String, KeySet<FilePath>> = KeyMap::new();
    let mut k: usize = 0;
    assert(roots@.dom() =~= tested(pairs::<String, FilePath>(roots@)));
    while k < files.len()
        invariant
            k <= files.len(),
            all == models(files@),
            forall|n: Name| #[trigger] running@.contains(n) == runs_script(packages@, script@, n),
            forall|n: Name, p: Path| #[trigger]
                pairs::<String, FilePath>(roots@).contains((n, p)) == (runs_script(
                    packages@,
                    script@,
                    n,
                ) && is_own_test(packages@, p, n) && exists|j: int|
                    0 <= j < k && #[trigger] all[j] == p),
            roots@.dom() == tested(pairs::<String, FilePath>(roots@)),
        decreases files.len() - k,
    {
        let ghost before = pairs::<String, FilePath>(roots@);
        let ghost dom = roots@.dom();
        let file = &files[k];
        assert(all[k as int] == file@);
        match owner_index(packages, file) {
            Some(o) => {
                let package = &packages[o];
                if running.contains(&package.name) && is_test_input(&relative(file, &package.dir)) {
                    roots.link(package.name.clone(), file.dup());
                    proof {
                        link_is_tested(before, dom, package.name@, file@);
                    }
                }
            },
            None => {},
        }
        proof {
            assert forall|n: Name, p: Path| #[trigger]
                pairs::<String, FilePath>(roots@).contains((n, p)) == (runs_script(
                    packages@,
                    script@,
                    n,
                ) && is_own_test(packages@, p, n) && exists|j: int|
                    0 <= j < k + 1 && #[trigger] all[j] == p) by {
                assert(before.contains((n, p)) == (runs_script(packages@, script@, n) && is_own_test(
                    packages@,
                    p,
                    n,
                ) && exists|j: int| 0 <= j < k && #[trigger] all[j] == p));
                assert(running@.contains(n) == runs_script(packages@, script@, n));
                if p == file@ {
                    assert(all[k as int] == p);
                }
            }
        }
        k += 1;
    }
    roots
}

/// A new pair names one more package, or one that was named already.
proof fn link_is_tested(before: Set<(Name, Path)>, dom: Set<Name>, name: Name, path: Path)
    requires
        dom == tested(before),
    ensures
        dom.insert(name) == tested(before.insert((name, path))),
{
    let after = before.insert((name, path));
    assert forall|n: Name| dom.insert(name).contains(n) == tested(after).contains(n) by {
        if dom.contains(n) {
            let p = choose|p: Path| #[trigger] before.contains((n, p));
            assert(after.contains((n, p)));
        }
        if n == name {
            assert(after.contains((name, path)));
        }
        if tested(after).contains(n) && n != name {
            let p = choose|p: Path| #[trigger] after.contains((n, p));
            assert(before.contains((n, p)));
        }
    }
    assert(dom.insert(name) =~= tested(after));
}

fn add_used_workers(
    packages: &Vec<Package>,
    configs: &Vec<Option<Data>>,
    running: &KeySet<String>,
    script: &str,
    start: KeyMap<String, KeySet<FilePath>>,
) -> (r: KeyMap<String, KeySet<FilePath>>)
    requires
        configs@.len() == packages@.len(),
        forall|n: Name| #[trigger] running@.contains(n) == runs_script(packages@, script@, n),
        start@.dom() == tested(pairs::<String, FilePath>(start@)),
    ensures
        forall|n: Name, p: Path| #[trigger]
            pairs::<String, FilePath>(r@).contains((n, p)) == (pairs::<String, FilePath>(
                start@,
            ).contains((n, p)) || is_used_worker(packages@, configs@, script@, n, p)),
        r@.dom() == tested(pairs::<String, FilePath>(r@)),
{
    let workers = index_workers(packages, configs);
    let ghost first = pairs::<String, FilePath>(start@);
    let mut roots = start;
    let mut i: usize = 0;
    while i < packages.len()
        invariant
            i <= packages.len(),
            configs@.len() == packages@.len(),
            forall|n: Name| #[trigger] running@.contains(n) == runs_script(packages@, script@, n),
            forall|w: Name| #[trigger]
                workers@.dom().contains(w) == worker_package(
                    packages@,
                    configs@,
                    w,
                    packages@.len() as int,
                ) is Some,
            forall|w: Name| #[trigger]
                workers@.dom().contains(w) ==> workers@[w] < packages@.len() && worker_package(
                    packages@,
                    configs@,
                    w,
                    packages@.len() as int,
                ) == Some(workers@[w] as int) && is_worker(
                    packages@,
                    configs@,
                    w,
                    workers@[w] as int,
                ),
            forall|n: Name, p: Path| #[trigger]
                pairs::<String, FilePath>(roots@).contains((n, p)) == (first.contains((n, p)) || exists|
                    k: int,
                    w: Name,
                |
                    0 <= k < i && packages@[k].name@ == n && runs_script(packages@, script@, n)
                        && #[trigger] uses_worker(packages@, configs@, k, w, p)),
            roots@.dom() == tested(pairs::<String, FilePath>(roots@)),
        decreases packages.len() - i,
    {
        let package = &packages[i];
        let ghost before = pairs::<String, FilePath>(roots@);
        let runs = running.contains(&package.name);
        let ghost mut seen: Set<Name> = Set::empty();
        match &configs[i] {
            Some(config) => if runs {
                let references = list_worker_references(config);
                let count = references.len();
                let ghost list = references.list();
                proof {
                    seen = references@;
                }
                let mut k: usize = 0;
                while k < count
                    invariant
                        k <= count,
                        i < packages.len(),
                        *package == packages@[i as int],
                        configs@[i as int] == Some(*config),
                        configs@.len() == packages@.len(),
                        references@ == worker_references(config@),
                        list == references.list(),
                        count == list.len(),
                        forall|w: Name| #[trigger]
                            workers@.dom().contains(w) == worker_package(
                                packages@,
                                configs@,
                                w,
                                packages@.len() as int,
                            ) is Some,
                        forall|w: Name| #[trigger]
                            workers@.dom().contains(w) ==> workers@[w] < packages@.len()
                                && worker_package(
                                packages@,
                                configs@,
                                w,
                                packages@.len() as int,
                            ) == Some(workers@[w] as int) && is_worker(
                                packages@,
                                configs@,
                                w,
                                workers@[w] as int,
                            ),
                        forall|n: Name, p: Path| #[trigger]
                            pairs::<String, FilePath>(roots@).contains((n, p)) == (before.contains(
                                (n, p),
                            ) || (n == package.name@ && exists|j: int|
                                0 <= j < k && uses_worker(
                                    packages@,
                                    configs@,
                                    i as int,
                                    #[trigger] list[j],
                                    p,
                                ))),
                        roots@.dom() == tested(pairs::<String, FilePath>(roots@)),
                    decreases count - k,
                {
                    let ghost middle = pairs::<String, FilePath>(roots@);
                    let ghost dom = roots@.dom();
                    let reference = references.at(k);
                    let ghost w = list[k as int];
                    let ghost mut found: Option<Path> = None;
                    match workers.get(reference) {
                        Some(j) => {
                            let other = &packages[*j];
                            if other.name != package.name {
                                match &other.entrypoint {
                                    Some(path) => {
                                        roots.link(package.name.clone(), path.dup());
                                        proof {
                                            found = Some(path@);
                                            link_is_tested(middle, dom, package.name@, path@);
                                        }
                                    },
                                    None => {},
                                }
                            }
                        },
                        None => {},
                    }
                    proof {
                        assert forall|p: Path| #[trigger]
                            uses_worker(packages@, configs@, i as int, w, p) == (found == Some(p)) by {
                            assert(references@.contains(w));
                            assert(workers@.dom().contains(w) == worker_package(
                                packages@,
                                configs@,
                                w,
                                packages@.len() as int,
                            ) is Some);
                        }
                        assert forall|n: Name, p: Path| #[trigger]
                            pairs::<String, FilePath>(roots@).contains((n, p)) == (before.contains(
                                (n, p),
                            ) || (n == package.name@ && exists|j: int|
                                0 <= j < k + 1 && uses_worker(
                                    packages@,
                                    configs@,
                                    i as int,
                                    #[trigger] list[j],
                                    p,
                                ))) by {
                            assert(middle.contains((n, p)) == (before.contains((n, p)) || (n
                                == package.name@ && exists|j: int|
                                0 <= j < k && uses_worker(
                                    packages@,
                                    configs@,
                                    i as int,
                                    #[trigger] list[j],
                                    p,
                                ))));
                            assert(uses_worker(packages@, configs@, i as int, list[k as int], p) == (
                            found == Some(p)));
                        }
                    }
                    k += 1;
                }
                proof {
                    assert forall|n: Name, p: Path| #[trigger]
                        pairs::<String, FilePath>(roots@).contains((n, p)) == (before.contains((n, p))
                            || (n == package.name@ && exists|w: Name| #[trigger]
                            uses_worker(packages@, configs@, i as int, w, p))) by {
                        if n == package.name@ && exists|w: Name| #[trigger]
                            uses_worker(packages@, configs@, i as int, w, p) {
                            let w = choose|w: Name| #[trigger]
                                uses_worker(packages@, configs@, i as int, w, p);
                            assert(references@.contains(w));
                            let j = choose|j: int| 0 <= j < list.len() && list[j] == w;
                            assert(uses_worker(packages@, configs@, i as int, list[j], p));
                        }
                        if n == package.name@ && exists|j: int|
                            0 <= j < count && uses_worker(
                                packages@,
                                configs@,
                                i as int,
                                #[trigger] list[j],
                                p,
                            ) {
                            let j = choose|j: int|
                                0 <= j < count && uses_worker(
                                    packages@,
                                    configs@,
                                    i as int,
                                    #[trigger] list[j],
                                    p,
                                );
                            assert(uses_worker(packages@, configs@, i as int, list[j], p));
                        }
                    }
                }
            },
            None => {},
        }
        proof {
            assert forall|n: Name, p: Path| #[trigger]
                pairs::<String, FilePath>(roots@).contains((n, p)) == (first.contains((n, p)) || exists|
                    k: int,
                    w: Name,
                |
                    0 <= k < i + 1 && packages@[k].name@ == n && runs_script(packages@, script@, n)
                        && #[trigger] uses_worker(packages@, configs@, k, w, p)) by {
                assert(before.contains((n, p)) == (first.contains((n, p)) || exists|k: int, w: Name|
                    0 <= k < i && packages@[k].name@ == n && runs_script(packages@, script@, n)
                        && #[trigger] uses_worker(packages@, configs@, k, w, p)));
                assert(running@.contains(n) == runs_script(packages@, script@, n));
                assert(pairs::<String, FilePath>(roots@).contains((n, p)) == (before.contains((n, p))
                    || (n == package.name@ && runs && exists|w: Name| #[trigger]
                    uses_worker(packages@, configs@, i as int, w, p))));
                if exists|k: int, w: Name|
                    0 <= k < i + 1 && packages@[k].name@ == n && runs_script(packages@, script@, n)
                        && #[trigger] uses_worker(packages@, configs@, k, w, p) {
                    let (k, w) = choose|k: int, w: Name|
                        0 <= k < i + 1 && packages@[k].name@ == n && runs_script(packages@, script@, n)
                            && #[trigger] uses_worker(packages@, configs@, k, w, p);
                    assert(uses_worker(packages@, configs@, k, w, p));
                }
            }
        }
        i += 1;
    }
    proof {
        assert forall|n: Name, p: Path| #[trigger]
            pairs::<String, FilePath>(roots@).contains((n, p)) == (first.contains((n, p))
                || is_used_worker(packages@, configs@, script@, n, p)) by {
            assert(pairs::<String, FilePath>(roots@).contains((n, p)) == (first.contains((n, p))
                || exists|k: int, w: Name|
                0 <= k < packages@.len() && packages@[k].name@ == n && runs_script(
                    packages@,
                    script@,
                    n,
                ) && #[trigger] uses_worker(packages@, configs@, k, w, p)));
        }
    }
    roots
}

/// The files from which the tests of the packages with `script` start: their own test inputs, and
/// the entrypoints of the workers that their configurations refer to. `configs` holds the
/// configuration of each package's worker, where it has one.
pub fn test_roots_for(
    packages: &Vec<Package>,
    script: &str,
    files: &Vec<FilePath>,
    configs: &Vec<Option<Data>>,
) -> (r: KeyMap<String, Vec<FilePath>>)
    requires
        configs@.len() == packages@.len(),
    ensures
        are_roots(
            r@,
            tested(test_files(packages@, configs@, script@, models(files@))),
            test_files(packages@, configs@, script@, models(files@)),
        ),
{
    let running = list_running(packages, script);
    let own = add_own_tests(packages, &running, files, script);
    let roots = add_used_workers(packages, configs, &running, script, own);
    proof {
        let all = test_files(packages@, configs@, script@, models(files@));
        assert forall|e: (Name, Path)| pairs::<String, FilePath>(roots@).contains(e) == all.contains(e) by {
            let (n, p) = e;
            assert(pairs::<String, FilePath>(roots@).contains((n, p)) == (pairs::<String, FilePath>(
                own@,
            ).contains((n, p)) || is_used_worker(packages@, configs@, script@, n, p)));
        }
        assert(pairs::<String, FilePath>(roots@) =~= all);
    }
    list_roots(roots)
}

} // verus!
