//! Findings about the graph as a whole: cycles, and which findings concern the targets.
use vstd::prelude::*;

use crate::collections::{
    ascending, pairs, push_to_set, union_over, union_over_all, union_over_next, union_over_none,
    KeyMap, KeySet,
};
use crate::diagnostics::{cycles, is_cycle, is_cycle_along, Diagnostic, Severity};
use crate::graph::links::{edges_in, finding, findings_in, report, Edge, EdgeMap, Finding};
use crate::graph::node::{Node, NodeModel};
use crate::graph::targets::{is_target_file, target_file, target_models, TargetModel, TargetNode};
use crate::order::{models, Key};
use crate::path::FilePath;
use crate::text::{decimal, decimal_text, join, join2, join3, joined, same};
use crate::walk::{closure, listed, reaches};
use crate::workspace::Package;

verus! {

/// Some package of the workspace is named `name`.
pub open spec fn is_package_name(packages: Seq<Package>, name: Seq<char>) -> bool {
    exists|i: int| 0 <= i < packages.len() && (#[trigger] packages[i]).name@ == name
}

/// Package `i` is the last one with its name.
pub open spec fn is_last_named(packages: Seq<Package>, i: int) -> bool {
    0 <= i < packages.len() && forall|j: int|
        i < j < packages.len() ==> (#[trigger] packages[j]).name@ != packages[i].name@
}

/// A package of the workspace depends on another; of packages with the same name the last counts.
pub open spec fn package_links(packages: Seq<Package>) -> spec_fn(Seq<char>, Seq<char>) -> bool {
    |a: Seq<char>, b: Seq<char>|
        is_package_name(packages, b) && exists|i: int|
            #[trigger] is_last_named(packages, i) && packages[i].name@ == a
                && packages[i].dependencies@.contains(b)
}

/// The findings about packages that depend on each other in a circle.
pub open spec fn package_cycles(packages: Seq<Package>) -> Set<Finding> {
    Set::new(
        |d: Finding|
            exists|c: Seq<Seq<char>>|
                #[trigger] is_cycle_along::<String>(package_links(packages), c) && d == finding(
                    "MONORIPPLE_PACKAGE_CYCLE"@,
                    Severity::Info,
                    "workspace package cycle: "@ + joined(c, " -> "@),
                    None,
                    Seq::empty(),
                ),
    )
}

/// The relation of a set of edges.
pub open spec fn along(edges: Set<Edge>) -> spec_fn(NodeModel, NodeModel) -> bool {
    |a: NodeModel, b: NodeModel| edges.contains((a, b))
}

/// What the targets depend on, directly or not, and the targets themselves.
pub open spec fn included(edges: Set<Edge>, targets: Seq<TargetModel>) -> Set<NodeModel> {
    Set::new(
        |n: NodeModel|
            exists|i: int|
                0 <= i < targets.len() && #[trigger] reaches(along(edges), targets[i].1, n),
    )
}

/// The files of a set of nodes, apart from the one of the targets.
pub open spec fn files_of(nodes: Set<NodeModel>) -> Set<Seq<Seq<char>>> {
    Set::new(
        |p: Seq<Seq<char>>|
            p != target_file() && exists|n: NodeModel| #[trigger] nodes.contains(n) && n.0 == p,
    )
}

/// A file depends on another through an edge between nodes that the targets include.
pub open spec fn module_links(edges: Set<Edge>, nodes: Set<NodeModel>) -> spec_fn(
    Seq<Seq<char>>,
    Seq<Seq<char>>,
) -> bool {
    |a: Seq<Seq<char>>, b: Seq<Seq<char>>|
        a != b && a != target_file() && b != target_file() && exists|e: Edge|
            #[trigger] edges.contains(e) && nodes.contains(e.0) && nodes.contains(e.1) && e.0.0 == a
                && e.1.0 == b
}

/// The findings about files that load each other in a circle.
pub open spec fn module_cycles(edges: Set<Edge>, nodes: Set<NodeModel>) -> Set<Finding> {
    Set::new(
        |d: Finding|
            exists|c: Seq<Seq<Seq<char>>>|
                #[trigger] is_cycle_along::<FilePath>(module_links(edges, nodes), c) && d == finding(
                    "MONORIPPLE_RUNTIME_MODULE_CYCLE"@,
                    Severity::Info,
                    "runtime module cycle containing "@ + decimal(c.len()) + " modules"@,
                    Some(c[0]),
                    c,
                ),
    )
}

/// A finding concerns the targets: it is about no file, about a target's entrypoint, or about a
/// file that the targets include.
pub open spec fn concerns(d: Finding, files: Set<Seq<Seq<char>>>) -> bool {
    match d.1.1.1.0 {
        None => true,
        Some(path) => d.0 == "MONORIPPLE_VIRTUAL_OR_GENERATED_ENTRYPOINT"@ || files.contains(path),
    }
}

/// The findings about the whole graph: of those so far and of the package cycles the ones that
/// concern the targets, and the cycles of files.
pub open spec fn settled(
    found: Set<Finding>,
    packages: Seq<Package>,
    edges: Set<Edge>,
    targets: Seq<TargetModel>,
) -> Set<Finding> {
    let nodes = included(edges, targets);
    found.union(package_cycles(packages)).filter(|d: Finding| concerns(d, files_of(nodes))).union(
        module_cycles(edges, nodes),
    )
}

fn package_names(packages: &Vec<Package>) -> (r: KeySet<String>)
    ensures
        forall|n: Seq<char>| #[trigger] r@.contains(n) <==> is_package_name(packages@, n),
{
    let mut out: KeySet<String> = KeySet::new();
    let mut i: usize = 0;
    while i < packages.len()
        invariant
            i <= packages.len(),
            forall|n: Seq<char>|
                #[trigger] out@.contains(n) <==> exists|k: int|
                    0 <= k < i && (#[trigger] packages@[k]).name@ == n,
        decreases packages.len() - i,
    {
        out.insert(packages[i].name.clone());
        i += 1;
    }
    out
}

fn common_names(a: &KeySet<String>, b: &KeySet<String>) -> (r: KeySet<String>)
    ensures
        r@ == a@.intersect(b@),
{
    let mut out: KeySet<String> = KeySet::new();
    let ghost list = a.list();
    let n = a.len();
    let mut i: usize = 0;
    assert(out@ =~= list.take(0).to_set().intersect(b@));
    while i < n
        invariant
            i <= n,
            n == list.len(),
            list == a.list(),
            out@ == list.take(i as int).to_set().intersect(b@),
        decreases n - i,
    {
        let name = a.at(i);
        if b.contains(name) {
            out.insert(name.clone());
        }
        proof {
            assert(list.take(i + 1) =~= list.take(i as int).push(list[i as int]));
            push_to_set(list.take(i as int), list[i as int]);
            assert(out@ =~= list.take(i + 1).to_set().intersect(b@));
        }
        i += 1;
    }
    assert(list.take(n as int) =~= list);
    out
}

fn package_graph(packages: &Vec<Package>) -> (r: KeyMap<String, KeySet<String>>)
    ensures
        listed(r@) == package_links(packages@),
{
    let names = package_names(packages);
    let mut out: KeyMap<String, KeySet<String>> = KeyMap::new();
    let mut i: usize = 0;
    while i < packages.len()
        invariant
            i <= packages.len(),
            forall|n: Seq<char>| #[trigger] names@.contains(n) <==> is_package_name(packages@, n),
            forall|a: Seq<char>|
                #[trigger] out@.dom().contains(a) <==> exists|k: int|
                    0 <= k < i && (#[trigger] packages@[k]).name@ == a,
            forall|k: int|
                0 <= k < i && (forall|j: int|
                    k < j < i ==> (#[trigger] packages@[j]).name@ != packages@[k].name@)
                    ==> out@[(#[trigger] packages@[k]).name@]@
                    == packages@[k].dependencies@.intersect(names@),
        decreases packages.len() - i,
    {
        let package = &packages[i];
        let ghost before = out@;
        let links = common_names(&package.dependencies, &names);
        out.insert(package.name.clone(), links);
        proof {
            assert forall|k: int|
                0 <= k < i + 1 && (forall|j: int|
                    k < j < i + 1 ==> (#[trigger] packages@[j]).name@ != packages@[k].name@) implies out@[(
            #[trigger] packages@[k]).name@]@ == packages@[k].dependencies@.intersect(names@) by {
                if k < i {
                    assert(packages@[i as int].name@ != packages@[k].name@);
                    assert(out@[packages@[k].name@] == before[packages@[k].name@]);
                }
            }
        }
        i += 1;
    }
    proof {
        let r = listed(out@);
        let s = package_links(packages@);
        assert forall|a: Seq<char>, b: Seq<char>| #[trigger] r(a, b) == s(a, b) by {
            if r(a, b) {
                let k = choose|k: int| 0 <= k < packages.len() && (#[trigger] packages@[k]).name@ == a;
                last_with_name(packages@, k);
                let l = choose|l: int| #[trigger] is_last_named(packages@, l) && packages@[l].name@ == a;
                assert(out@[packages@[l].name@]@ == packages@[l].dependencies@.intersect(names@));
                assert(is_last_named(packages@, l));
            }
            if s(a, b) {
                let l = choose|l: int|
                    #[trigger] is_last_named(packages@, l) && packages@[l].name@ == a
                        && packages@[l].dependencies@.contains(b);
                assert(out@[packages@[l].name@]@ == packages@[l].dependencies@.intersect(names@));
                assert(packages@[l].name@ == a);
            }
        }
        assert(r =~= s);
    }
    out
}

proof fn last_with_name(packages: Seq<Package>, k: int)
    requires
        0 <= k < packages.len(),
    ensures
        exists|l: int| #[trigger] is_last_named(packages, l) && packages[l].name@ == packages[k].name@,
    decreases packages.len() - k,
{
    if is_last_named(packages, k) {
        assert(is_last_named(packages, k) && packages[k].name@ == packages[k].name@);
    } else {
        let j = choose|j: int|
            k < j < packages.len() && (#[trigger] packages[j]).name@ == packages[k].name@;
        last_with_name(packages, j);
    }
}

fn report_package_cycles(packages: &Vec<Package>, found: &mut Vec<Diagnostic>)
    ensures
        findings_in(final(found)@) == findings_in(old(found)@).union(package_cycles(packages@)),
{
    let graph = package_graph(packages);
    let list = cycles(&graph);
    let ghost start = findings_in(found@);
    let ghost r = package_links(packages@);
    let ghost f = |c: Seq<Seq<char>>|
        set![
            finding(
                "MONORIPPLE_PACKAGE_CYCLE"@,
                Severity::Info,
                "workspace package cycle: "@ + joined(c, " -> "@),
                None,
                Seq::empty(),
            ),
        ];
    let ghost all = models(list@);
    let mut i: usize = 0;
    proof {
        union_over_none(all.take(0), f);
        assert(start.union(Set::empty()) =~= start);
    }
    while i < list.len()
        invariant
            i <= list.len(),
            all == models(list@),
            f == (|c: Seq<Seq<char>>|
                set![
                    finding(
                        "MONORIPPLE_PACKAGE_CYCLE"@,
                        Severity::Info,
                        "workspace package cycle: "@ + joined(c, " -> "@),
                        None,
                        Seq::empty(),
                    ),
                ]),
            findings_in(found@) == start.union(union_over(all.take(i as int), f)),
        decreases list.len() - i,
    {
        let message = join2("workspace package cycle: ", join(&list[i], " -> ").as_str());
        let item = Diagnostic {
            code: "MONORIPPLE_PACKAGE_CYCLE",
            severity: Severity::Info,
            message,
            path: None,
            members: Vec::new(),
        };
        assert(models(item.members@) =~= Seq::empty());
        report(found, item);
        proof {
            union_over_next(all, f, i as int);
            assert(findings_in(found@) =~= start.union(union_over(all.take(i + 1), f)));
        }
        i += 1;
    }
    proof {
        union_over_all(all, f, i as int);
        assert forall|d: Finding| union_over(all, f).contains(d) == package_cycles(packages@).contains(d) by {
            if union_over(all, f).contains(d) {
                let k = choose|k: int| 0 <= k < all.len() && (#[trigger] f(all[k])).contains(d);
                assert(all.contains(all[k]));
                assert(is_cycle(graph@, all[k]));
                assert(is_cycle_along::<String>(r, all[k]));
            }
            if package_cycles(packages@).contains(d) {
                let c = choose|c: Seq<Seq<char>>|
                    #[trigger] is_cycle_along::<String>(r, c) && d == finding(
                        "MONORIPPLE_PACKAGE_CYCLE"@,
                        Severity::Info,
                        "workspace package cycle: "@ + joined(c, " -> "@),
                        None,
                        Seq::empty(),
                    );
                assert(is_cycle(graph@, c));
                assert(all.contains(c));
                let k = choose|k: int| 0 <= k < all.len() && all[k] == c;
                assert(f(all[k]).contains(d));
            }
        }
        assert(union_over(all, f) =~= package_cycles(packages@));
    }
}

fn included_nodes(edges: &EdgeMap, targets: &Vec<TargetNode>) -> (r: KeySet<Node>)
    ensures
        r@ == included(edges_in(*edges), target_models(targets@)),
{
    let ghost list = target_models(targets@);
    let mut start: KeySet<Node> = KeySet::new();
    let mut i: usize = 0;
    while i < targets.len()
        invariant
            i <= targets.len(),
            list == target_models(targets@),
            forall|n: NodeModel|
                #[trigger] start@.contains(n) <==> exists|k: int| 0 <= k < i && (#[trigger] list[k]).1 == n,
        decreases targets.len() - i,
    {
        let ghost before = start@;
        start.insert(targets[i].node.dup());
        proof {
            assert(list[i as int].1 == targets@[i as int].node@);
            assert forall|n: NodeModel|
                #[trigger] start@.contains(n) <==> exists|k: int| 0 <= k < i + 1 && (#[trigger] list[k]).1 == n by {
                assert(start@.contains(n) == (before.contains(n) || n == list[i as int].1));
            }
        }
        i += 1;
    }
    let r = closure(edges, &start);
    proof {
        let ra = listed(edges@);
        let rb = along(edges_in(*edges));
        assert(ra =~= rb);
        assert forall|n: NodeModel| r@.contains(n) == included(edges_in(*edges), list).contains(n) by {
            if r@.contains(n) {
                let s = choose|s: NodeModel| start@.contains(s) && #[trigger] reaches(ra, s, n);
                let k = choose|k: int| 0 <= k < list.len() && (#[trigger] list[k]).1 == s;
                assert(reaches(rb, list[k].1, n));
            }
            if included(edges_in(*edges), list).contains(n) {
                let k = choose|k: int| 0 <= k < list.len() && #[trigger] reaches(rb, list[k].1, n);
                assert(start@.contains(list[k].1));
                assert(reaches(ra, list[k].1, n));
            }
        }
        assert(r@ =~= included(edges_in(*edges), list));
    }
    r
}

fn file_set(nodes: &KeySet<Node>) -> (r: KeySet<FilePath>)
    ensures
        r@ == files_of(nodes@),
{
    let mut out: KeySet<FilePath> = KeySet::new();
    let ghost list = nodes.list();
    let n = nodes.len();
    let mut i: usize = 0;
    while i < n
        invariant
            i <= n,
            n == list.len(),
            list == nodes.list(),
            forall|p: Seq<Seq<char>>|
                #[trigger] out@.contains(p) <==> p != target_file() && exists|k: int|
                    0 <= k < i && (#[trigger] list[k]).0 == p,
        decreases n - i,
    {
        let ghost before = out@;
        let node = nodes.at(i);
        if !is_target_file(&node.file) {
            out.insert(node.file.dup());
        }
        proof {
            assert(list[i as int].0 == node.file@);
            assert forall|p: Seq<Seq<char>>|
                #[trigger] out@.contains(p) <==> p != target_file() && exists|k: int|
                    0 <= k < i + 1 && (#[trigger] list[k]).0 == p by {
                assert(out@.contains(p) == (before.contains(p) || (p == list[i as int].0 && p
                    != target_file())));
            }
        }
        i += 1;
    }
    proof {
        assert forall|p: Seq<Seq<char>>| out@.contains(p) == files_of(nodes@).contains(p) by {
            if out@.contains(p) {
                let k = choose|k: int| 0 <= k < list.len() && (#[trigger] list[k]).0 == p;
                assert(nodes@.contains(list[k]));
            }
            if files_of(nodes@).contains(p) {
                let x = choose|x: NodeModel| #[trigger] nodes@.contains(x) && x.0 == p;
                let k = choose|k: int| 0 <= k < list.len() && list[k] == x;
                assert(list[k].0 == p);
            }
        }
        assert(out@ =~= files_of(nodes@));
    }
    out
}

/// The pairs of files that the edges of one consumer relate.
spec fn file_pairs(
    edges: Map<NodeModel, KeySet<Node>>,
    nodes: Set<NodeModel>,
) -> spec_fn(NodeModel) -> Set<(Seq<Seq<char>>, Seq<Seq<char>>)> {
    |c: NodeModel| union_over(edges[c].list(), file_pair(c, nodes))
}

spec fn file_pair(c: NodeModel, nodes: Set<NodeModel>) -> spec_fn(NodeModel) -> Set<
    (Seq<Seq<char>>, Seq<Seq<char>>),
> {
    |d: NodeModel|
        if nodes.contains(c) && nodes.contains(d) && c.0 != d.0 && c.0 != target_file() && d.0
            != target_file() {
            set![(c.0, d.0)]
        } else {
            Set::empty()
        }
}

fn module_graph_of(
    consumer: &Node,
    dependencies: &KeySet<Node>,
    nodes: &KeySet<Node>,
    out: &mut KeyMap<FilePath, KeySet<FilePath>>,
)
    ensures
        pairs::<FilePath, FilePath>(final(out)@) == pairs::<FilePath, FilePath>(old(out)@).union(
            union_over(dependencies.list(), file_pair(consumer@, nodes@)),
        ),
{
    let ghost start = pairs::<FilePath, FilePath>(out@);
    let ghost list = dependencies.list();
    let ghost f = file_pair(consumer@, nodes@);
    let n = dependencies.len();
    proof {
        union_over_none(list.take(0), f);
        assert(start.union(Set::empty()) =~= start);
    }
    let mut i: usize = 0;
    while i < n
        invariant
            i <= n,
            n == list.len(),
            list == dependencies.list(),
            f == file_pair(consumer@, nodes@),
            pairs::<FilePath, FilePath>(out@) == start.union(union_over(list.take(i as int), f)),
        decreases n - i,
    {
        let dependency = dependencies.at(i);
        if nodes.contains(consumer) && nodes.contains(dependency) && !consumer.file.same_as(
            &dependency.file,
        ) && !is_target_file(&consumer.file) && !is_target_file(&dependency.file) {
            out.link(consumer.file.dup(), dependency.file.dup());
        }
        proof {
            union_over_next(list, f, i as int);
            assert(pairs::<FilePath, FilePath>(out@) =~= start.union(
                union_over(list.take(i + 1), f),
            ));
        }
        i += 1;
    }
    proof {
        union_over_all(list, f, n as int);
    }
}

fn module_graph(edges: &EdgeMap, nodes: &KeySet<Node>) -> (r: KeyMap<FilePath, KeySet<FilePath>>)
    ensures
        listed(r@) == module_links(edges_in(*edges), nodes@),
{
    let mut out: KeyMap<FilePath, KeySet<FilePath>> = KeyMap::new();
    let ghost keys = edges.keys();
    let ghost f = file_pairs(edges@, nodes@);
    let n = edges.len();
    let mut i: usize = 0;
    proof {
        union_over_none(keys.take(0), f);
        assert(pairs::<FilePath, FilePath>(out@) =~= Set::empty());
    }
    while i < n
        invariant
            i <= n,
            n == keys.len(),
            keys == edges.keys(),
            f == file_pairs(edges@, nodes@),
            pairs::<FilePath, FilePath>(out@) == union_over(keys.take(i as int), f),
        decreases n - i,
    {
        module_graph_of(edges.key_at(i), edges.value_at(i), nodes, &mut out);
        proof {
            union_over_next(keys, f, i as int);
        }
        i += 1;
    }
    proof {
        union_over_all(keys, f, n as int);
        let r = listed(out@);
        let s = module_links(edges_in(*edges), nodes@);
        assert forall|a: Seq<Seq<char>>, b: Seq<Seq<char>>| #[trigger] r(a, b) == s(a, b) by {
            let e = (a, b);
            assert(r(a, b) == pairs::<FilePath, FilePath>(out@).contains(e));
            if r(a, b) {
                let k = choose|k: int| 0 <= k < keys.len() && (#[trigger] f(keys[k])).contains(e);
                let c = keys[k];
                let g = file_pair(c, nodes@);
                let l = edges@[c].list();
                let x = choose|x: int| 0 <= x < l.len() && (#[trigger] g(l[x])).contains(e);
                assert(keys.contains(c));
                assert(edges@.dom().contains(c));
                assert(l.contains(l[x]));
                assert(edges_in(*edges).contains((c, l[x])));
            }
            if s(a, b) {
                let d = choose|d: Edge|
                    #[trigger] edges_in(*edges).contains(d) && nodes@.contains(d.0)
                        && nodes@.contains(d.1) && d.0.0 == a && d.1.0 == b;
                let k = choose|k: int| 0 <= k < keys.len() && keys[k] == d.0;
                let g = file_pair(keys[k], nodes@);
                let l = edges@[keys[k]].list();
                let x = choose|x: int| 0 <= x < l.len() && l[x] == d.1;
                assert(g(l[x]).contains(e));
                assert(f(keys[k]).contains(e));
            }
        }
        assert(r =~= s);
    }
    out
}

fn report_module_cycles(edges: &EdgeMap, nodes: &KeySet<Node>, found: &mut Vec<Diagnostic>)
    ensures
        findings_in(final(found)@) == findings_in(old(found)@).union(
            module_cycles(edges_in(*edges), nodes@),
        ),
{
    let graph = module_graph(edges, nodes);
    let mut list = cycles(&graph);
    let ghost start = findings_in(found@);
    let ghost r = module_links(edges_in(*edges), nodes@);
    let ghost f = |c: Seq<Seq<Seq<char>>>|
        set![
            finding(
                "MONORIPPLE_RUNTIME_MODULE_CYCLE"@,
                Severity::Info,
                "runtime module cycle containing "@ + decimal(c.len()) + " modules"@,
                Some(c[0]),
                c,
            ),
        ];
    let ghost all = models(list@);
    let mut i: usize = 0;
    proof {
        union_over_none(all.take(0), f);
        assert(start.union(Set::empty()) =~= start);
        assert forall|k: int| 0 <= k < all.len() implies #[trigger] is_cycle(graph@, all[k]) by {
            assert(all.contains(all[k]));
        }
    }
    while i < list.len()
        invariant
            i <= list.len(),
            all == models(list@),
            forall|k: int| 0 <= k < all.len() ==> #[trigger] is_cycle(graph@, all[k]),
            f == (|c: Seq<Seq<Seq<char>>>|
                set![
                    finding(
                        "MONORIPPLE_RUNTIME_MODULE_CYCLE"@,
                        Severity::Info,
                        "runtime module cycle containing "@ + decimal(c.len()) + " modules"@,
                        Some(c[0]),
                        c,
                    ),
                ]),
            findings_in(found@) == start.union(union_over(all.take(i as int), f)),
        decreases list.len() - i,
    {
        let component = &list[i];
        assert(is_cycle(graph@, all[i as int]));
        assert(all[i as int] == models(component@));
        let message = join3(
            "runtime module cycle containing ",
            decimal_text(component.len()).as_str(),
            " modules",
        );
        let item = Diagnostic {
            code: "MONORIPPLE_RUNTIME_MODULE_CYCLE",
            severity: Severity::Info,
            message,
            path: Some(component[0].dup()),
            members: component.dup(),
        };
        report(found, item);
        proof {
            union_over_next(all, f, i as int);
            assert(findings_in(found@) =~= start.union(union_over(all.take(i + 1), f)));
        }
        i += 1;
    }
    proof {
        union_over_all(all, f, i as int);
        let goal = module_cycles(edges_in(*edges), nodes@);
        assert forall|d: Finding| union_over(all, f).contains(d) == goal.contains(d) by {
            if union_over(all, f).contains(d) {
                let k = choose|k: int| 0 <= k < all.len() && (#[trigger] f(all[k])).contains(d);
                assert(is_cycle(graph@, all[k]));
                assert(is_cycle_along::<FilePath>(r, all[k]));
            }
            if goal.contains(d) {
                let c = choose|c: Seq<Seq<Seq<char>>>|
                    #[trigger] is_cycle_along::<FilePath>(r, c) && d == finding(
                        "MONORIPPLE_RUNTIME_MODULE_CYCLE"@,
                        Severity::Info,
                        "runtime module cycle containing "@ + decimal(c.len()) + " modules"@,
                        Some(c[0]),
                        c,
                    );
                assert(is_cycle(graph@, c));
                assert(all.contains(c));
                let k = choose|k: int| 0 <= k < all.len() && all[k] == c;
                assert(f(all[k]).contains(d));
            }
        }
        assert(union_over(all, f) =~= goal);
    }
}

fn keep_concerning(found: &Vec<Diagnostic>, files: &KeySet<FilePath>) -> (r: Vec<Diagnostic>)
    ensures
        findings_in(r@) == findings_in(found@).filter(|d: Finding| concerns(d, files@)),
{
    let ghost all = models(found@);
    let ghost keep = |d: Finding| concerns(d, files@);
    let mut out: Vec<Diagnostic> = Vec::new();
    let mut i: usize = 0;
    assert(findings_in(out@) =~= all.take(0).to_set().filter(keep));
    while i < found.len()
        invariant
            i <= found.len(),
            all == models(found@),
            keep == (|d: Finding| concerns(d, files@)),
            findings_in(out@) == all.take(i as int).to_set().filter(keep),
        decreases found.len() - i,
    {
        let item = &found[i];
        let kept = match &item.path {
            None => true,
            Some(path) => same(item.code, "MONORIPPLE_VIRTUAL_OR_GENERATED_ENTRYPOINT")
                || files.contains(path),
        };
        if kept {
            report(&mut out, item.dup());
        }
        proof {
            assert(all.take(i + 1) =~= all.take(i as int).push(all[i as int]));
            push_to_set(all.take(i as int), all[i as int]);
            assert(findings_in(out@) =~= all.take(i + 1).to_set().filter(keep));
        }
        i += 1;
    }
    assert(all.take(i as int) =~= all);
    out
}

/// The findings in ascending order, each once.
pub(crate) fn sorted_findings(found: &Vec<Diagnostic>) -> (r: Vec<Diagnostic>)
    ensures
        findings_in(r@) == findings_in(found@),
        ascending::<Diagnostic>(models(r@)),
{
    let ghost all = models(found@);
    let mut set: KeySet<Diagnostic> = KeySet::new();
    let mut i: usize = 0;
    assert(set@ =~= all.take(0).to_set());
    while i < found.len()
        invariant
            i <= found.len(),
            all == models(found@),
            set@ == all.take(i as int).to_set(),
        decreases found.len() - i,
    {
        set.insert(found[i].dup());
        proof {
            assert(all.take(i + 1) =~= all.take(i as int).push(all[i as int]));
            push_to_set(all.take(i as int), all[i as int]);
        }
        i += 1;
    }
    assert(all.take(i as int) =~= all);
    let n = set.len();
    let mut out: Vec<Diagnostic> = Vec::new();
    let mut k: usize = 0;
    while k < n
        invariant
            k <= n,
            n == set.list().len(),
            models(out@) =~= set.list().take(k as int),
        decreases n - k,
    {
        let ghost before = models(out@);
        let item = set.at(k).dup();
        out.push(item);
        assert(models(out@) =~= before.push(item.model()));
        k += 1;
    }
    assert(set.list().take(n as int) =~= set.list());
    out
}

/// Brings the findings about the whole graph up to date.
pub(crate) fn settle(
    edges: &EdgeMap,
    targets: &Vec<TargetNode>,
    packages: &Vec<Package>,
    found: &mut Vec<Diagnostic>,
)
    ensures
        findings_in(final(found)@) == settled(
            findings_in(old(found)@),
            packages@,
            edges_in(*edges),
            target_models(targets@),
        ),
        ascending::<Diagnostic>(models(final(found)@)),
{
    report_package_cycles(packages, found);
    let nodes = included_nodes(edges, targets);
    let files = file_set(&nodes);
    let mut kept = keep_concerning(found, &files);
    report_module_cycles(edges, &nodes, &mut kept);
    *found = sorted_findings(&kept);
}

} // verus!
