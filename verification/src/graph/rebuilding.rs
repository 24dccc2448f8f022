//! Building a graph again from what was kept of it.
use vstd::prelude::*;

use crate::collections::{ascending_is_unique, push_to_set, union_over};
use crate::diagnostics::Diagnostic;
use crate::graph::construct::{is_built, is_first_failure, is_last_at, kept_among, SourceFile};
use crate::graph::findings::settled;
use crate::graph::links::{edges_in, findings_in, Edge, Finding};
use crate::graph::model::{are_canonical, is_canonical, DependencyGraph};
use crate::graph::resolve::{members, normal, DiskFacts, WorkspacePackage, World};
use crate::graph::targets::{is_virtual_of, target_models, virtual_entrypoint, without_virtual};
use crate::order::{models, Key};
use crate::parser::ParseError;
use crate::workspace::{Package, Target};

verus! {

proof fn union_over_same<A, E>(
    s: Seq<A>,
    t: Seq<A>,
    f: spec_fn(A) -> Set<E>,
    g: spec_fn(A) -> Set<E>,
)
    requires
        s.to_set() == t.to_set(),
        forall|x: A| #[trigger] f(x) == g(x),
    ensures
        union_over(s, f) == union_over(t, g),
{
    assert forall|e: E| union_over(s, f).contains(e) == union_over(t, g).contains(e) by {
        if union_over(s, f).contains(e) {
            let i = choose|i: int| 0 <= i < s.len() && f(#[trigger] s[i]).contains(e);
            assert(t.to_set().contains(s[i]));
            let j = choose|j: int| 0 <= j < t.len() && t[j] == s[i];
            assert(g(t[j]).contains(e));
        }
        if union_over(t, g).contains(e) {
            let j = choose|j: int| 0 <= j < t.len() && g(#[trigger] t[j]).contains(e);
            assert(s.to_set().contains(t[j]));
            let i = choose|i: int| 0 <= i < s.len() && s[i] == t[j];
            assert(f(s[i]).contains(e));
        }
    }
    assert(union_over(s, f) =~= union_over(t, g));
}

proof fn left_over(s: Seq<Finding>, package: Seq<char>, d: Finding)
    ensures
        without_virtual(s, package).contains(d) == (s.contains(d) && !is_virtual_of(d, package)),
{
    let keep = |d: Finding| !is_virtual_of(d, package);
    assert(without_virtual(s, package) == s.filter(keep));
    if s.contains(d) && keep(d) {
        let i = choose|i: int| 0 <= i < s.len() && s[i] == d;
        s.lemma_filter_contains(keep, i);
    }
    if s.filter(keep).contains(d) {
        s.lemma_filter_contains_rev(keep, d);
        let i = choose|i: int| 0 <= i < s.filter(keep).len() && s.filter(keep)[i] == d;
        s.lemma_filter_pred(keep, i);
    }
}

proof fn left_over_same(a: Seq<Finding>, b: Seq<Finding>, package: Seq<char>)
    requires
        a.to_set() == b.to_set(),
    ensures
        without_virtual(a, package).to_set() == without_virtual(b, package).to_set(),
{
    let x = without_virtual(a, package);
    let y = without_virtual(b, package);
    assert forall|d: Finding| #[trigger] x.to_set().contains(d) == y.to_set().contains(d) by {
        left_over(a, package, d);
        left_over(b, package, d);
        assert(a.to_set().contains(d) == a.contains(d));
        assert(b.to_set().contains(d) == b.contains(d));
        assert(x.to_set().contains(d) == x.contains(d));
        assert(y.to_set().contains(d) == y.contains(d));
    }
    assert(x.to_set() =~= y.to_set());
}

proof fn declared_same(w: World, targets: Seq<Target>, n: int, a: Seq<Finding>, b: Seq<Finding>)
    requires
        a.to_set() == b.to_set(),
    ensures
        w.declared(targets, n, Seq::empty(), a).0 == w.declared(targets, n, Seq::empty(), b).0,
        w.declared(targets, n, Seq::empty(), a).1.to_set() == w.declared(
            targets,
            n,
            Seq::empty(),
            b,
        ).1.to_set(),
    decreases n,
{
    if n > 0 {
        declared_same(w, targets, n - 1, a, b);
        let x = w.declared(targets, n - 1, Seq::empty(), a).1;
        let y = w.declared(targets, n - 1, Seq::empty(), b).1;
        let package = targets[n - 1].package@;
        if w.has_entrypoint(targets[n - 1]) {
            left_over_same(x, y, package);
        } else {
            let d = virtual_entrypoint(
                package,
                normal(w.disk, targets[n - 1].entrypoint@),
            );
            push_to_set(x, d);
            push_to_set(y, d);
        }
    }
}

proof fn canonical_is_unique(
    disk: DiskFacts,
    packages: Seq<Package>,
    a: Seq<WorkspacePackage>,
    b: Seq<WorkspacePackage>,
)
    requires
        are_canonical(disk, packages, a),
        are_canonical(disk, packages, b),
    ensures
        members(a) == members(b),
{
    assert forall|i: int| 0 <= i < packages.len() implies a[i]@ == b[i]@ by {
        assert(is_canonical(disk, packages[i], a[i]));
        assert(is_canonical(disk, packages[i], b[i]));
        assert(a[i]@.exports =~= b[i]@.exports) by {
            assert forall|k: Seq<char>| #[trigger] a[i]@.exports.dom().contains(k) implies a[i]@.exports[k]
                == b[i]@.exports[k] by {
                assert(packages[i].exports@.dom().contains(k));
                assert(a[i].exports@[k]@ == b[i].exports@[k]@);
            }
        }
    }
    assert(members(a) =~= members(b));
}

/// The graphs have the same modules, edges, targets and findings.
pub open spec fn says_the_same(a: DependencyGraph, b: DependencyGraph) -> bool {
    &&& a.modules@ == b.modules@
    &&& edges_in(a.edges) == edges_in(b.edges)
    &&& edges_in(a.type_edges) == edges_in(b.type_edges)
    &&& a.edges@.dom() == b.edges@.dom()
    &&& a.type_edges@.dom() == b.type_edges@.dom()
    &&& a.typed_registry_edges@ == b.typed_registry_edges@
    &&& target_models(a.targets@) == target_models(b.targets@)
    &&& models(a.diagnostics@) == models(b.diagnostics@)
    &&& members(a.workspace_packages@) == members(b.workspace_packages@)
    &&& a.disk == b.disk
}

/// What a graph says is determined by its modules, the targets, the packages and the disk.
pub proof fn modules_determine_the_graph(
    a: DependencyGraph,
    b: DependencyGraph,
    targets: Seq<Target>,
    packages: Seq<Package>,
)
    requires
        a.modules@ == b.modules@,
        a.disk == b.disk,
        a.is_linked(targets, packages),
        b.is_linked(targets, packages),
    ensures
        says_the_same(a, b),
{
    canonical_is_unique(a.disk, packages, a.workspace_packages@, b.workspace_packages@);
    let w = a.world();
    assert(w == b.world());
    a.modules.dom_is_finite();
    b.modules.dom_is_finite();
    let n = targets.len() as int;
    assert(a.module_edges() == b.module_edges()) by {
        union_over_same::<Seq<Seq<char>>, Edge>(
            a.modules.keys(),
            b.modules.keys(),
            |p: Seq<Seq<char>>| a.world().runtime_edges(p),
            |p: Seq<Seq<char>>| b.world().runtime_edges(p),
        );
    }
    assert(a.module_type_edges() == b.module_type_edges()) by {
        union_over_same::<Seq<Seq<char>>, Edge>(
            a.modules.keys(),
            b.modules.keys(),
            |p: Seq<Seq<char>>| a.world().type_edges(p),
            |p: Seq<Seq<char>>| b.world().type_edges(p),
        );
    }
    assert(a.module_findings() == b.module_findings()) by {
        union_over_same::<Seq<Seq<char>>, Finding>(
            a.modules.keys(),
            b.modules.keys(),
            |p: Seq<Seq<char>>| a.world().findings(p),
            |p: Seq<Seq<char>>| b.world().findings(p),
        );
    }
    let x = choose|found: Seq<Finding>|
        {
            &&& found.to_set() == a.module_findings()
            &&& target_models(a.targets@) == (#[trigger] w.declared(targets, n, Seq::empty(), found)).0
            &&& findings_in(a.diagnostics@) == settled(
                w.declared(targets, n, Seq::empty(), found).1.to_set(),
                packages,
                edges_in(a.edges),
                target_models(a.targets@),
            )
        };
    let y = choose|found: Seq<Finding>|
        {
            &&& found.to_set() == b.module_findings()
            &&& target_models(b.targets@) == (#[trigger] w.declared(targets, n, Seq::empty(), found)).0
            &&& findings_in(b.diagnostics@) == settled(
                w.declared(targets, n, Seq::empty(), found).1.to_set(),
                packages,
                edges_in(b.edges),
                target_models(b.targets@),
            )
        };
    declared_same(w, targets, n, x, y);
    ascending_is_unique::<Diagnostic>(models(a.diagnostics@), models(b.diagnostics@));
}

/// The same files once more, with the modules that a graph was built of kept of them. Of several
/// files at one place it is the last whose module the graph has.
pub open spec fn are_kept(
    files: Seq<SourceFile>,
    disk: DiskFacts,
    graph: DependencyGraph,
    again: Seq<SourceFile>,
) -> bool {
    &&& again.len() == files.len()
    &&& forall|i: int|
        0 <= i < files.len() ==> {
            &&& (#[trigger] again[i]).path@ == files[i].path@
            &&& again[i].source@ == files[i].source@
            &&& again[i].cached is Some
            &&& is_last_at(files, disk, files[i].place(disk), files.len() as int, i)
                ==> again[i].cached == Some(graph.modules@[files[i].place(disk)])
        }
}

proof fn all_are_kept(files: Seq<SourceFile>, n: int)
    requires
        0 <= n <= files.len(),
        forall|i: int| 0 <= i < files.len() ==> (#[trigger] files[i]).cached is Some,
    ensures
        kept_among(files, n) == n,
    decreases n,
{
    if n > 0 {
        all_are_kept(files, n - 1);
    }
}

/// A second build with the modules of the first kept succeeds, parses no file and gives the same
/// graph; the first one counted every file once, as kept or as parsed.
pub proof fn second_builds_parse_nothing(
    files: Seq<SourceFile>,
    again: Seq<SourceFile>,
    targets: Seq<Target>,
    packages: Seq<Package>,
    disk: DiskFacts,
    first: DependencyGraph,
    r: Result<DependencyGraph, ParseError>,
)
    requires
        is_built(files, targets, packages, disk, Ok(first)),
        are_kept(files, disk, first, again),
        is_built(again, targets, packages, disk, r),
    ensures
        first.cache_stats.local_hits + first.cache_stats.misses == files.len(),
        r matches Ok(second) && second.cache_stats.local_hits == files.len()
            && second.cache_stats.misses == 0 && says_the_same(first, second),
{
    let n = files.len() as int;
    all_are_kept(again, n);
    match r {
        Err(e) => {
            let i = choose|i: int|
                #[trigger] is_first_failure(again, disk, i, e);
            assert(again[i].cached is Some);
        },
        Ok(second) => {
            assert forall|i: int| 0 <= i < n implies (#[trigger] again[i]).place(disk)
                == files[i].place(disk) by {}
            assert forall|place: Seq<Seq<char>>| #[trigger]
                second.modules@.dom().contains(place) implies first.modules@.dom().contains(place)
                && second.modules@[place] == first.modules@[place] by {
                let i = choose|i: int|
                    is_last_at(again, disk, place, n, i) && #[trigger] again[i].holds(
                        disk,
                        second.modules@[place],
                    );
                assert(again[i].place(disk) == files[i].place(disk));
                assert forall|j: int| i < j < n implies (#[trigger] files[j]).place(disk) != place by {
                    assert(again[j].place(disk) != place);
                }
                assert(is_last_at(files, disk, place, n, i));
                assert(again[i].cached == Some(first.modules@[place]));
            }
            assert forall|place: Seq<Seq<char>>| #[trigger]
                first.modules@.dom().contains(place) implies second.modules@.dom().contains(place) by {
                let i = choose|i: int|
                    is_last_at(files, disk, place, n, i) && #[trigger] files[i].holds(
                        disk,
                        first.modules@[place],
                    );
                assert(again[i].place(disk) == files[i].place(disk));
            }
            assert(first.modules@ =~= second.modules@);
            modules_determine_the_graph(first, second, targets, packages);
        },
    }
}

} // verus!
