//! What holds of the facts that a compiler adds to a graph.
use vstd::prelude::*;

use crate::collections::union_over;
use crate::graph::edge_laws::{holds_entry, over_has, over_holds, stands_for};
use crate::graph::imports::entry_nodes;
use crate::graph::laws::{Path, Text};
use crate::graph::links::Edge;
use crate::graph::model::DependencyGraph;
use crate::graph::node::NodeModel;
use crate::graph::resolve::{normal, World};
use crate::order::models;
use crate::parser::{entry_symbol, MODULE_INIT};
use crate::typescript::{TypeScriptFact, TypeScriptRegistry};

verus! {

/// The compiler saw this registry being read through an index.
pub open spec fn is_seen(w: World, list: Seq<TypeScriptRegistry>, r: NodeModel) -> bool {
    exists|i: int|
        0 <= i < list.len() && r == (normal(w.disk, (#[trigger] list[i]).file@), list[i].symbol@)
}

/// A module indexes what stands for this registry, which is one and which the compiler saw.
pub open spec fn is_confirmed_by(
    w: World,
    list: Seq<TypeScriptRegistry>,
    path: Path,
    name: Text,
    r: NodeModel,
) -> bool {
    &&& w.modules.dom().contains(path)
    &&& w.modules[path].indexed_registry_dependencies@.contains(name)
    &&& stands_for(w, path, name, r)
    &&& is_seen(w, list, r)
    &&& w.modules.dom().contains(r.0)
    &&& w.modules[r.0].registries@.dom().contains(r.1)
}

proof fn seen_registries_are_known(w: World, list: Seq<TypeScriptRegistry>, r: NodeModel)
    ensures
        w.compiler_registries(list).contains(r) == is_seen(w, list, r),
{
    let f = |x: TypeScriptRegistry| set![(normal(w.disk, x.file@), x.symbol@)];
    if w.compiler_registries(list).contains(r) {
        let x = over_has(list, f, r);
        let i = choose|i: int| 0 <= i < list.len() && list[i] == x;
        assert(r == (normal(w.disk, list[i].file@), list[i].symbol@));
    }
    if is_seen(w, list, r) {
        let i = choose|i: int|
            0 <= i < list.len() && r == (normal(w.disk, (#[trigger] list[i]).file@), list[i].symbol@);
        assert(f(list[i]).contains(r));
        over_holds(list, f, list[i], r);
    }
}

proof fn confirmed_are_confirmed_by(
    w: World,
    list: Seq<TypeScriptRegistry>,
    path: Path,
    name: Text,
    r: NodeModel,
)
    requires
        w.modules.dom().contains(path),
        w.modules[path].indexed_registry_dependencies@.contains(name),
    ensures
        w.confirmed(w.compiler_registries(list), path, name).contains(r) == is_confirmed_by(
            w,
            list,
            path,
            name,
            r,
        ),
{
    seen_registries_are_known(w, list, r);
}

/// The registries that count are those that a module indexes and the compiler saw.
pub proof fn indexed_registries_are_confirmed(
    graph: DependencyGraph,
    list: Seq<TypeScriptRegistry>,
    r: NodeModel,
)
    ensures
        union_over(
            graph.modules.keys(),
            graph.world().confirmed_of(graph.world().compiler_registries(list)),
        ).contains(r) <==> exists|path: Path, name: Text| #[trigger]
            is_confirmed_by(graph.world(), list, path, name, r),
{
    let w = graph.world();
    let keys = graph.modules.keys();
    let known = w.compiler_registries(list);
    graph.modules.dom_is_finite();
    if union_over(keys, w.confirmed_of(known)).contains(r) {
        let path = over_has(keys, w.confirmed_of(known), r);
        assert(keys.to_set().contains(path));
        let names = w.modules[path].indexed_registry_dependencies;
        let name = over_has(names.list(), w.confirmed_in(known, path), r);
        assert(names@.contains(name));
        confirmed_are_confirmed_by(w, list, path, name, r);
        assert(is_confirmed_by(w, list, path, name, r));
    }
    if exists|path: Path, name: Text| #[trigger] is_confirmed_by(w, list, path, name, r) {
        let (path, name) = choose|path: Path, name: Text| #[trigger]
            is_confirmed_by(w, list, path, name, r);
        let names = w.modules[path].indexed_registry_dependencies;
        confirmed_are_confirmed_by(w, list, path, name, r);
        assert((w.confirmed_in(known, path))(name).contains(r));
        over_holds(names.list(), w.confirmed_in(known, path), name, r);
        assert(keys.to_set().contains(path));
        assert((w.confirmed_of(known))(path).contains(r));
        over_holds(keys, w.confirmed_of(known), path, r);
    }
}

/// The facts stand in the place of the edges from the initialisation of a module to the names
/// that it indexes and that stand for a confirmed registry.
pub proof fn facts_replace_what_is_indexed(
    graph: DependencyGraph,
    list: Seq<TypeScriptRegistry>,
    e: Edge,
)
    ensures
        union_over(
            graph.modules.keys(),
            graph.world().covered_of(graph.world().compiler_registries(list)),
        ).contains(e) <==> {
            &&& e.0.1 == MODULE_INIT@
            &&& e.1.0 == e.0.0
            &&& exists|r: NodeModel| #[trigger]
                is_confirmed_by(graph.world(), list, e.0.0, e.1.1, r)
        },
{
    let w = graph.world();
    let keys = graph.modules.keys();
    let known = w.compiler_registries(list);
    graph.modules.dom_is_finite();
    if union_over(keys, w.covered_of(known)).contains(e) {
        let path = over_has(keys, w.covered_of(known), e);
        assert(keys.to_set().contains(path));
        let names = w.modules[path].indexed_registry_dependencies;
        let name = over_has(names.list(), w.covered_in(known, path), e);
        assert(names@.contains(name));
        let found = w.confirmed(known, path, name);
        assert(exists|r: NodeModel| found.contains(r)) by {
            if forall|r: NodeModel| !found.contains(r) {
                assert(found =~= Set::empty());
            }
        }
        let r = choose|r: NodeModel| found.contains(r);
        confirmed_are_confirmed_by(w, list, path, name, r);
        assert(is_confirmed_by(w, list, path, name, r));
    }
    if e.0.1 == MODULE_INIT@ && e.1.0 == e.0.0 && exists|r: NodeModel| #[trigger]
        is_confirmed_by(w, list, e.0.0, e.1.1, r) {
        let (path, name) = (e.0.0, e.1.1);
        let r = choose|r: NodeModel| #[trigger] is_confirmed_by(w, list, e.0.0, e.1.1, r);
        confirmed_are_confirmed_by(w, list, path, name, r);
        assert(w.confirmed(known, path, name).contains(r));
        let names = w.modules[path].indexed_registry_dependencies;
        assert((w.covered_in(known, path))(name).contains(e));
        over_holds(names.list(), w.covered_in(known, path), name, e);
        assert(keys.to_set().contains(path));
        assert((w.covered_of(known))(path).contains(e));
        over_holds(keys, w.covered_of(known), path, e);
    }
}

/// A fact names only keys that the registry has, and at least one.
pub open spec fn names_entries(w: World, fact: TypeScriptFact, r: NodeModel) -> bool {
    &&& fact.keys matches Some(keys)
    &&& keys@.len() > 0
    &&& forall|i: int| 0 <= i < keys@.len() ==> holds_entry(w, r, (#[trigger] keys@[i])@)
}

/// A fact makes its consumer depend on the entries that it names where the registry has all of
/// them, and on the registry where not. The consumer is the named symbol, or the initialisation
/// of a module without such a symbol. A fact about a registry that does not count, or about an
/// unknown module, says nothing.
pub proof fn facts_lead_to_entries(
    w: World,
    indexed: Set<NodeModel>,
    fact: TypeScriptFact,
    c: NodeModel,
    d: NodeModel,
)
    ensures
        (w.fact_edges(indexed))(fact).contains((c, d)) <==> {
            let path = normal(w.disk, fact.file@);
            let r: NodeModel = (normal(w.disk, fact.registry_file@), fact.registry_symbol@);
            &&& c != d
            &&& indexed.contains(r)
            &&& w.modules.dom().contains(path)
            &&& c == if w.modules[path].symbols@.dom().contains(fact.consumer@) {
                (path, fact.consumer@)
            } else {
                (path, MODULE_INIT@)
            }
            &&& if names_entries(w, fact, r) {
                exists|i: int|
                    0 <= i < fact.keys->0@.len() && d == (
                        r.0,
                        entry_symbol(r.1, (#[trigger] fact.keys->0@[i])@),
                    )
            } else {
                d == r
            }
        },
{
    let r = w.fact_registry(fact);
    if let Some(keys) = fact.keys {
        assert forall|i: int| 0 <= i < keys@.len() implies w.has_entry(r, (#[trigger] keys@[i])@)
            == holds_entry(w, r, keys@[i]@) by {}
        if names_entries(w, fact, r) {
            let all = models(keys@);
            let nodes = entry_nodes(set![r], all.to_set());
            assert(w.fact_targets(fact) == nodes);
            if nodes.contains(d) {
                let (x, k) = choose|x: NodeModel, k: Text|
                    set![r].contains(x) && all.to_set().contains(k) && d == (
                        x.0,
                        #[trigger] entry_symbol(x.1, k),
                    );
                let i = choose|i: int| 0 <= i < all.len() && all[i] == k;
                assert(keys@[i]@ == k);
            }
            if exists|i: int|
                0 <= i < keys@.len() && d == (r.0, entry_symbol(r.1, (#[trigger] keys@[i])@)) {
                let i = choose|i: int|
                    0 <= i < keys@.len() && d == (r.0, entry_symbol(r.1, (#[trigger] keys@[i])@));
                assert(all[i] == keys@[i]@);
                assert(all.to_set().contains(all[i]));
                assert(set![r].contains(r));
                assert(d == (r.0, entry_symbol(r.1, all[i])));
            }
        } else if keys@.len() > 0 {
            let i = choose|i: int|
                0 <= i < keys@.len() && !holds_entry(w, r, (#[trigger] keys@[i])@);
            assert(!w.has_entry(r, keys@[i]@));
        }
    }
}

} // verus!
