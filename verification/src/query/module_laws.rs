//! What holds of the pages that are drawn of all modules.
use vstd::prelude::*;

use crate::graph::links::{edges_in, EdgeMap};
use crate::graph::node::NodeModel;
use crate::query::laws::ends;
use crate::query::modules::ModuleLinks;
use crate::query::report::local_name;
use crate::query::{Analysis, Path};
use crate::viz::{LinkView, NodeKind};

verus! {

/// Every module is a node of the page, told by its place, and marked as changed where something of
/// it changed, as affected where changes reach something of it, and as neither otherwise.
pub proof fn modules_are_marked(a: Analysis, root: Path, i: int)
    requires
        0 <= i < a.graph.modules.keys().len(),
    ensures
        a.module_nodes(root).len() == a.graph.modules.keys().len(),
        ({
            let file = a.graph.modules.keys()[i];
            let node = a.module_nodes(root)[i];
            let changed = exists|n: NodeModel| #[trigger] a.changed_nodes().contains(n) && n.0 == file;
            let reached = exists|n: NodeModel| #[trigger]
                a.reachability.reached@.contains(n) && n.0 == file;
            &&& node.id == i
            &&& node.file == local_name(root, file)
            &&& node.label == local_name(root, file)
            &&& changed ==> node.kind == NodeKind::Seed
            &&& !changed && reached && file != seq!["<target>"@] ==> node.kind
                == NodeKind::Affected
            &&& !changed && !reached ==> node.kind == NodeKind::Normal
        }),
{
}

pub open spec fn has_ends(links: Seq<LinkView>, source: int, target: int) -> bool {
    exists|k: int| 0 <= k < links.len() && ends(#[trigger] links[k]) == (source, target)
}

spec fn is_complete(found: ModuleLinks) -> bool {
    forall|s: int, t: int|
        #![trigger found.seen.contains((s, t))]
        #![trigger has_ends(found.links, s, t)]
        found.seen.contains((s, t)) == has_ends(found.links, s, t)
}

spec fn leads(a: Analysis, list: Seq<NodeModel>, n: int, target: int) -> bool {
    exists|j: int|
        0 <= j < n && a.files().contains((#[trigger] list[j]).0) && a.files().index_of(list[j].0)
            == target
}

proof fn edges_are_found(
    a: Analysis,
    root: Path,
    found: ModuleLinks,
    consumer: NodeModel,
    list: Seq<NodeModel>,
    type_only: bool,
    n: int,
)
    requires
        is_complete(found),
        0 <= n <= list.len(),
    ensures
        is_complete(a.with_edges(root, found, consumer, list, type_only, n)),
        forall|s: int, t: int|
            #![trigger a.with_edges(root, found, consumer, list, type_only, n).seen.contains((s, t))]
            a.with_edges(root, found, consumer, list, type_only, n).seen.contains((s, t)) == (
            found.seen.contains((s, t)) || (s == a.files().index_of(consumer.0) && s != t && leads(
                a,
                list,
                n,
                t,
            ))),
    decreases n,
{
    if n > 0 {
        edges_are_found(a, root, found, consumer, list, type_only, n - 1);
        let before = a.with_edges(root, found, consumer, list, type_only, n - 1);
        let now = a.with_edges(root, found, consumer, list, type_only, n);
        let d = list[n - 1];
        let source = a.files().index_of(consumer.0);
        let target = a.files().index_of(d.0);
        assert forall|t: int| #[trigger] leads(a, list, n, t) == (leads(a, list, n - 1, t) || (
        a.files().contains(d.0) && target == t)) by {
            if leads(a, list, n, t) {
                let j = choose|j: int|
                    0 <= j < n && a.files().contains((#[trigger] list[j]).0) && a.files().index_of(
                        list[j].0,
                    ) == t;
                if j < n - 1 {
                    assert(leads(a, list, n - 1, t));
                }
            }
            if leads(a, list, n - 1, t) {
                let j = choose|j: int|
                    0 <= j < n - 1 && a.files().contains((#[trigger] list[j]).0) && a.files().index_of(
                        list[j].0,
                    ) == t;
                assert(a.files().contains(list[j].0));
            }
        }
        if now != before {
            assert forall|s: int, t: int| #[trigger]
                has_ends(now.links, s, t) == (has_ends(before.links, s, t) || (s == source && t
                    == target)) by {
                let last = before.links.len() as int;
                assert(ends(now.links[last]) == (source, target));
                if has_ends(now.links, s, t) {
                    let k = choose|k: int|
                        0 <= k < now.links.len() && ends(#[trigger] now.links[k]) == (s, t);
                    if k < last {
                        assert(now.links[k] == before.links[k]);
                        assert(has_ends(before.links, s, t));
                    }
                }
                if has_ends(before.links, s, t) {
                    let k = choose|k: int|
                        0 <= k < before.links.len() && ends(#[trigger] before.links[k]) == (s, t);
                    assert(now.links[k] == before.links[k]);
                }
            }
            assert forall|s: int, t: int|
                #![trigger now.seen.contains((s, t))]
                now.seen.contains((s, t)) == (before.seen.contains((s, t)) || (s == source && t
                    == target)) by {}
        }
        assert forall|s: int, t: int|
            #![trigger now.seen.contains((s, t))]
            now.seen.contains((s, t)) == (found.seen.contains((s, t)) || (s == source && s != t
                && leads(a, list, n, t))) by {
            assert(before.seen.contains((s, t)) == (found.seen.contains((s, t)) || (s == source && s
                != t && leads(a, list, n - 1, t))));
            assert(leads(a, list, n, t) == (leads(a, list, n - 1, t) || (a.files().contains(d.0)
                && target == t)));
        }
    } else {
        assert forall|t: int| !#[trigger] leads(a, list, n, t) by {}
    }
}

/// An edge leads from something in one file to something in another.
pub open spec fn is_file_edge(edges: EdgeMap, from: Path, to: Path) -> bool {
    exists|consumer: NodeModel, dependency: NodeModel|
        {
            &&& #[trigger] edges_in(edges).contains((consumer, dependency))
            &&& consumer.0 == from
            &&& dependency.0 == to
        }
}

spec fn leads_from(a: Analysis, edges: EdgeMap, n: int, s: int, t: int) -> bool {
    exists|c: int|
        {
            let consumer = edges.keys()[c];
            let list = edges@[consumer].list();
            &&& 0 <= c < n
            &&& a.files().contains((#[trigger] edges.keys()[c]).0)
            &&& a.files().index_of(consumer.0) == s
            &&& leads(a, list, list.len() as int, t)
        }
}

proof fn consumers_are_found(
    a: Analysis,
    root: Path,
    found: ModuleLinks,
    edges: EdgeMap,
    type_only: bool,
    n: int,
)
    requires
        is_complete(found),
        0 <= n <= edges.keys().len(),
    ensures
        is_complete(a.with_consumers(root, found, edges, type_only, n)),
        forall|s: int, t: int|
            #![trigger a.with_consumers(root, found, edges, type_only, n).seen.contains((s, t))]
            a.with_consumers(root, found, edges, type_only, n).seen.contains((s, t)) == (
            found.seen.contains((s, t)) || (s != t && leads_from(a, edges, n, s, t))),
    decreases n,
{
    if n > 0 {
        consumers_are_found(a, root, found, edges, type_only, n - 1);
        let before = a.with_consumers(root, found, edges, type_only, n - 1);
        let now = a.with_consumers(root, found, edges, type_only, n);
        let consumer = edges.keys()[n - 1];
        let list = edges@[consumer].list();
        let known = a.files().contains(consumer.0);
        if known {
            edges_are_found(a, root, before, consumer, list, type_only, list.len() as int);
        }
        assert forall|s: int, t: int|
            #![trigger now.seen.contains((s, t))]
            now.seen.contains((s, t)) == (found.seen.contains((s, t)) || (s != t && leads_from(
                a,
                edges,
                n,
                s,
                t,
            ))) by {
            assert(before.seen.contains((s, t)) == (found.seen.contains((s, t)) || (s != t
                && leads_from(a, edges, n - 1, s, t))));
            let here = known && a.files().index_of(consumer.0) == s && leads(
                a,
                list,
                list.len() as int,
                t,
            );
            if leads_from(a, edges, n, s, t) && !here {
                let c = choose|c: int|
                    {
                        let consumer = edges.keys()[c];
                        let list = edges@[consumer].list();
                        &&& 0 <= c < n
                        &&& a.files().contains((#[trigger] edges.keys()[c]).0)
                        &&& a.files().index_of(consumer.0) == s
                        &&& leads(a, list, list.len() as int, t)
                    };
                assert(c < n - 1);
                assert(a.files().contains(edges.keys()[c].0));
                assert(leads_from(a, edges, n - 1, s, t));
            }
            if leads_from(a, edges, n - 1, s, t) {
                let c = choose|c: int|
                    {
                        let consumer = edges.keys()[c];
                        let list = edges@[consumer].list();
                        &&& 0 <= c < n - 1
                        &&& a.files().contains((#[trigger] edges.keys()[c]).0)
                        &&& a.files().index_of(consumer.0) == s
                        &&& leads(a, list, list.len() as int, t)
                    };
                assert(a.files().contains(edges.keys()[c].0));
                assert(leads_from(a, edges, n, s, t));
            }
            if here {
                assert(a.files().contains(edges.keys()[n - 1].0));
                assert(leads_from(a, edges, n, s, t));
            }
        }
    } else {
        assert forall|s: int, t: int| !#[trigger] leads_from(a, edges, n, s, t) by {}
    }
}

/// Two different modules are linked exactly where something in the one depends on something in the
/// other; the links at run time are those of the edges at run time, the others those of types.
pub proof fn modules_are_linked_by_edges(a: Analysis, root: Path, s: int, t: int)
    requires
        a.graph.modules.keys().no_duplicates(),
        0 <= s < a.graph.modules.keys().len(),
        0 <= t < a.graph.modules.keys().len(),
    ensures
        ({
            let from = a.graph.modules.keys()[s];
            let to = a.graph.modules.keys()[t];
            &&& has_ends(a.links_of_kind(root, a.graph.edges, false), s, t) == (s != t
                && is_file_edge(a.graph.edges, from, to))
            &&& has_ends(a.links_of_kind(root, a.graph.type_edges, true), s, t) == (s != t
                && is_file_edge(a.graph.type_edges, from, to))
        }),
{
    links_follow_edges(a, root, a.graph.edges, false, s, t);
    links_follow_edges(a, root, a.graph.type_edges, true, s, t);
}

proof fn links_follow_edges(
    a: Analysis,
    root: Path,
    edges: EdgeMap,
    type_only: bool,
    s: int,
    t: int,
)
    requires
        a.files().no_duplicates(),
        0 <= s < a.files().len(),
        0 <= t < a.files().len(),
    ensures
        has_ends(a.links_of_kind(root, edges, type_only), s, t) == (s != t && is_file_edge(
            edges,
            a.files()[s],
            a.files()[t],
        )),
{
    let files = a.files();
    let none = ModuleLinks { seen: Set::empty(), links: Seq::empty() };
    let n = edges.keys().len() as int;
    assert(is_complete(none)) by {
        assert forall|x: int, y: int| !#[trigger] has_ends(none.links, x, y) by {}
    }
    consumers_are_found(a, root, none, edges, type_only, n);
    let all = a.with_consumers(root, none, edges, type_only, n);
    assert(all.seen.contains((s, t)) == has_ends(all.links, s, t));
    a.graph.modules.dom_is_finite();
    edges.dom_is_finite();
    if leads_from(a, edges, n, s, t) {
        let c = choose|c: int|
            {
                let consumer = edges.keys()[c];
                let list = edges@[consumer].list();
                &&& 0 <= c < n
                &&& a.files().contains((#[trigger] edges.keys()[c]).0)
                &&& a.files().index_of(consumer.0) == s
                &&& leads(a, list, list.len() as int, t)
            };
        let consumer = edges.keys()[c];
        let list = edges@[consumer].list();
        let j = choose|j: int|
            0 <= j < list.len() && files.contains((#[trigger] list[j]).0) && files.index_of(
                list[j].0,
            ) == t;
        assert(files[s] == consumer.0);
        assert(files[t] == list[j].0);
        assert(edges.keys().to_set().contains(consumer));
        assert(list.to_set().contains(list[j]));
        assert(edges@[consumer]@.contains(list[j]));
        assert(edges_in(edges).contains((consumer, list[j])));
    }
    if is_file_edge(edges, files[s], files[t]) {
        let (consumer, dependency) = choose|consumer: NodeModel, dependency: NodeModel|
            {
                &&& #[trigger] edges_in(edges).contains((consumer, dependency))
                &&& consumer.0 == files[s]
                &&& dependency.0 == files[t]
            };
        assert(edges.keys().to_set().contains(consumer));
        let c = choose|c: int| 0 <= c < edges.keys().len() && edges.keys()[c] == consumer;
        let list = edges@[consumer].list();
        assert(list.to_set().contains(dependency));
        let j = choose|j: int| 0 <= j < list.len() && list[j] == dependency;
        assert(files.contains(files[s]) && files.contains(files[t]));
        assert(files.index_of(files[s]) == s && files.index_of(files[t]) == t);
        assert(files.contains(list[j].0));
        assert(leads(a, list, list.len() as int, t));
        assert(files.contains(edges.keys()[c].0));
        assert(leads_from(a, edges, n, s, t));
    }
}

} // verus!
