//! What holds of the edges of a linked graph.
use vstd::prelude::*;

use crate::collections::union_over;
use crate::graph::exports::Slot;
use crate::graph::imports::{entry_nodes, own_imports_are_known};
use crate::graph::laws::{
    asks_for, declares, default_exports_are_not_passed_on, imports_take_declarations, is_bare,
    passes, re_exports_at, stars_at, Path, Text,
};
use crate::graph::links::{edges_in, Edge};
use crate::graph::model::DependencyGraph;
use crate::graph::node::NodeModel;
use crate::graph::resolve::{normal, World};
use crate::parser::{entry_symbol, ImportBinding, ImportedName, MODULE_INIT};
use crate::walk::{reaches, reaches_self, walk_between};
use crate::workspace::{Package, Target};

verus! {

/// A registry that a name of a module stands for: one of its own, or one that an import of a
/// single name leads to.
pub open spec fn stands_for(w: World, path: Path, name: Text, r: NodeModel) -> bool {
    let m = w.modules[path];
    if m.registries@.dom().contains(name) {
        r == (path, name)
    } else {
        &&& m.imports@.dom().contains(name)
        &&& m.imports@[name].imported matches ImportedName::Named(exported)
        &&& w.resolve(path, m.imports@[name].source@) matches Some(next)
        &&& w.exports(false, next, exported@).contains(r)
    }
}

/// A registry has an entry under a key.
pub open spec fn holds_entry(w: World, r: NodeModel, key: Text) -> bool {
    &&& w.modules.dom().contains(r.0)
    &&& w.modules[r.0].registries@.dom().contains(r.1)
    &&& w.modules[r.0].registries@[r.1].entries@.dom().contains(key)
}

/// Reading `keys` from a name reads entries of registries: the name stands for registries, and
/// each of them has all the keys.
pub open spec fn reads_entries(w: World, path: Path, name: Text, keys: Set<Text>) -> bool {
    &&& exists|r: NodeModel| #[trigger] stands_for(w, path, name, r)
    &&& exists|k: Text| #[trigger] keys.contains(k)
    &&& forall|r: NodeModel, k: Text|
        #[trigger] stands_for(w, path, name, r) && #[trigger] keys.contains(k) ==> holds_entry(w, r, k)
}

/// The declaration of `c` mentions `name`, and that leads to `d`: to the registry entries that
/// are read where only known entries are, else to the name itself.
pub open spec fn mentions_as(w: World, c: NodeModel, d: NodeModel, name: Text) -> bool {
    let m = w.modules[c.0];
    let s = m.symbols@[c.1];
    let keys = s.keyed_dependencies@[name]@;
    &&& w.modules.dom().contains(c.0)
    &&& m.symbols@.dom().contains(c.1)
    &&& s.dependencies@.contains(name)
    &&& if s.keyed_dependencies@.dom().contains(name) && reads_entries(w, c.0, name, keys) {
        exists|r: NodeModel, k: Text|
            stands_for(w, c.0, name, r) && keys.contains(k) && d == (
                r.0,
                #[trigger] entry_symbol(r.1, k),
            )
    } else {
        d == (c.0, name)
    }
}

/// `c` is a registry and `d` its entry under a key, or `c` is the entry and `d` what it holds.
pub open spec fn holds_as(w: World, c: NodeModel, d: NodeModel, registry: Text, key: Text) -> bool {
    let entry: NodeModel = (c.0, entry_symbol(registry, key));
    &&& holds_entry(w, (c.0, registry), key)
    &&& {
        ||| c == (c.0, registry) && d == entry
        ||| {
            &&& c == entry
            &&& w.modules[c.0].registries@[registry].entries@[key].dependency matches Some(name)
            &&& d == (c.0, name@)
        }
    }
}

/// `c` is the local name of a value import and `d` what it imports, or the initialisation of the
/// module that it imports from.
pub open spec fn imports_as(w: World, c: NodeModel, d: NodeModel, next: Path) -> bool {
    let m = w.modules[c.0];
    &&& w.modules.dom().contains(c.0)
    &&& m.imports@.dom().contains(c.1)
    &&& w.resolve(c.0, m.imports@[c.1].source@) == Some(next)
    &&& d == (next, MODULE_INIT@) || w.taken(false, next, m.imports@[c.1].imported).contains(d)
}

/// The module of `c` loads the module of `d`, and both are the initialisations.
pub open spec fn requests_as(w: World, c: NodeModel, d: NodeModel, request: Text) -> bool {
    &&& w.modules.dom().contains(c.0)
    &&& c.1 == MODULE_INIT@
    &&& d.1 == MODULE_INIT@
    &&& w.modules[c.0].module_requests@.contains(request)
    &&& w.resolve(c.0, request) == Some(d.0)
}

/// `c` loads a module by call `i`, and `d` is an export of that module or its initialisation.
pub open spec fn loads_as(w: World, c: NodeModel, d: NodeModel, i: int, next: Path) -> bool {
    let loads = w.modules[c.0].runtime_loads@;
    &&& w.modules.dom().contains(c.0)
    &&& 0 <= i < loads.len()
    &&& loads[i].consumers@.contains(c.1)
    &&& w.resolve(c.0, loads[i].source@) == Some(next)
    &&& d == (next, MODULE_INIT@) || w.everything(false, next).contains(d)
}

/// A module exports no value.
pub open spec fn exports_nothing(w: World, path: Path) -> bool {
    forall|n: NodeModel| !#[trigger] w.everything(false, path).contains(n)
}

/// `c` is the node of a target and `d` part of its entrypoint: the initialisation, an export,
/// or, where there is no export, a symbol that exists at run time.
pub open spec fn starts_at(w: World, target: Target, c: NodeModel, d: NodeModel) -> bool {
    let path = normal(w.disk, normal(w.disk, target.entrypoint@));
    let m = w.modules[path];
    &&& c == (seq!["<target>"@], target.package@)
    &&& w.modules.dom().contains(normal(w.disk, target.entrypoint@))
    &&& w.modules.dom().contains(path)
    &&& {
        ||| d == (path, MODULE_INIT@)
        ||| w.everything(false, path).contains(d)
        ||| {
            &&& exports_nothing(w, path)
            &&& d.0 == path
            &&& m.symbols@.dom().contains(d.1)
            &&& m.symbols@[d.1].runtime
        }
    }
}

/// `c` depends on `d` at run time by what the modules say.
pub open spec fn depends_at_run_time(w: World, c: NodeModel, d: NodeModel) -> bool {
    ||| exists|name: Text| #[trigger] mentions_as(w, c, d, name)
    ||| exists|registry: Text, key: Text| #[trigger] holds_as(w, c, d, registry, key)
    ||| exists|next: Path| #[trigger] imports_as(w, c, d, next)
    ||| exists|request: Text| #[trigger] requests_as(w, c, d, request)
    ||| exists|i: int, next: Path| #[trigger] loads_as(w, c, d, i, next)
}

pub(crate) proof fn over_holds<A, E>(s: Seq<A>, f: spec_fn(A) -> Set<E>, a: A, e: E)
    requires
        s.contains(a),
        f(a).contains(e),
    ensures
        union_over(s, f).contains(e),
{
    let i = choose|i: int| 0 <= i < s.len() && s[i] == a;
    assert(f(s[i]).contains(e));
}

pub(crate) proof fn over_has<A, E>(s: Seq<A>, f: spec_fn(A) -> Set<E>, e: E) -> (a: A)
    requires
        union_over(s, f).contains(e),
    ensures
        s.contains(a),
        f(a).contains(e),
{
    let i = choose|i: int| 0 <= i < s.len() && (#[trigger] f(s[i])).contains(e);
    s[i]
}

/// What reading keys of a name leads to.
proof fn keyed_reads(w: World, path: Path, name: Text, keys: Set<Text>)
    requires
        w.modules.dom().contains(path),
    ensures
        (w.keyed(path, name, keys) is Some) == reads_entries(w, path, name, keys),
        w.keyed(path, name, keys) matches Some(nodes) ==> forall|d: NodeModel| #[trigger]
            nodes.contains(d) == exists|r: NodeModel, k: Text|
                stands_for(w, path, name, r) && keys.contains(k) && d == (
                    r.0,
                    #[trigger] entry_symbol(r.1, k),
                ),
{
    let found = w.registry_nodes(path, name);
    assert forall|r: NodeModel| #[trigger] stands_for(w, path, name, r) == (found is Some
        && found->0.contains(r)) by {}
    if found is Some {
        let nodes = found->0;
        assert(exists|r: NodeModel| #[trigger] stands_for(w, path, name, r)) by {
            let r = nodes.choose();
            if !nodes.contains(r) {
                assert(nodes =~= Set::empty());
                assert(set![(path, name)].contains((path, name)));
            }
            assert(stands_for(w, path, name, r));
        }
        assert((keys != Set::<Text>::empty()) == exists|k: Text| #[trigger] keys.contains(k)) by {
            if keys != Set::<Text>::empty() && !(exists|k: Text| #[trigger] keys.contains(k)) {
                assert(keys =~= Set::empty());
            }
        }
        assert forall|r: NodeModel, k: Text| #[trigger] w.has_entry(r, k) == holds_entry(w, r, k) by {}
        let all = forall|r: NodeModel, k: Text|
            nodes.contains(r) && keys.contains(k) ==> #[trigger] w.has_entry(r, k);
        if all {
            assert forall|r: NodeModel, k: Text| #[trigger]
                stands_for(w, path, name, r) && #[trigger] keys.contains(k) implies holds_entry(w, r, k) by {
                assert(w.has_entry(r, k));
            }
        } else {
            let (r, k) = choose|r: NodeModel, k: Text|
                nodes.contains(r) && keys.contains(k) && !#[trigger] w.has_entry(r, k);
            assert(stands_for(w, path, name, r));
        }
        if let Some(read) = w.keyed(path, name, keys) {
            assert(read == entry_nodes(nodes, keys));
            assert forall|d: NodeModel| #[trigger] read.contains(d) == exists|r: NodeModel, k: Text|
                stands_for(w, path, name, r) && keys.contains(k) && d == (
                    r.0,
                    #[trigger] entry_symbol(r.1, k),
                ) by {
                if read.contains(d) {
                    let (r, k) = choose|r: NodeModel, k: Text|
                        nodes.contains(r) && keys.contains(k) && d == (
                            r.0,
                            #[trigger] entry_symbol(r.1, k),
                        );
                    assert(stands_for(w, path, name, r));
                }
            }
        }
    }
}

proof fn symbol_edges_are_mentions(w: World, path: Path, e: Edge)
    requires
        w.modules.dom().contains(path),
    ensures
        w.symbol_edges(path).contains(e) <==> e.0 != e.1 && e.0.0 == path && exists|name: Text|
            #[trigger] mentions_as(w, e.0, e.1, name),
{
    let m = w.modules[path];
    let symbols = m.symbols.keys();
    m.symbols.dom_is_finite();
    if w.symbol_edges(path).contains(e) {
        let local = over_has(symbols, w.symbol_fans(path), e);
        let s = m.symbols@[local];
        let name = over_has(s.dependencies.list(), w.symbol_fan(path, local), e);
        assert(symbols.to_set().contains(local));
        assert(s.dependencies@.contains(name));
        keyed_reads(w, path, name, s.keyed_dependencies@[name]@);
        assert(mentions_as(w, e.0, e.1, name));
    }
    if e.0 != e.1 && e.0.0 == path && exists|name: Text| #[trigger] mentions_as(w, e.0, e.1, name) {
        let name = choose|name: Text| #[trigger] mentions_as(w, e.0, e.1, name);
        let local = e.0.1;
        let s = m.symbols@[local];
        keyed_reads(w, path, name, s.keyed_dependencies@[name]@);
        assert((w.symbol_fan(path, local))(name).contains(e));
        assert(s.dependencies@.contains(name));
        over_holds(s.dependencies.list(), w.symbol_fan(path, local), name, e);
        assert(symbols.to_set().contains(local));
        assert((w.symbol_fans(path))(local).contains(e));
        over_holds(symbols, w.symbol_fans(path), local, e);
    }
}

proof fn registry_edges_are_entries(w: World, path: Path, e: Edge)
    requires
        w.modules.dom().contains(path),
    ensures
        w.registry_edges(path).contains(e) <==> e.0 != e.1 && e.0.0 == path && exists|
            registry: Text,
            key: Text,
        | #[trigger] holds_as(w, e.0, e.1, registry, key),
{
    let m = w.modules[path];
    let names = m.registries.keys();
    m.registries.dom_is_finite();
    if w.registry_edges(path).contains(e) {
        let registry = over_has(names, w.registry_fans(path), e);
        assert(names.to_set().contains(registry));
        let keys = m.registries@[registry].entries.keys();
        m.registries@[registry].entries.dom_is_finite();
        let key = over_has(keys, w.entry_edges(path, registry), e);
        assert(keys.to_set().contains(key));
        assert(holds_as(w, e.0, e.1, registry, key));
    }
    if e.0 != e.1 && e.0.0 == path && exists|registry: Text, key: Text| #[trigger]
        holds_as(w, e.0, e.1, registry, key) {
        let (registry, key) = choose|registry: Text, key: Text| #[trigger]
            holds_as(w, e.0, e.1, registry, key);
        let keys = m.registries@[registry].entries.keys();
        m.registries@[registry].entries.dom_is_finite();
        assert((w.entry_edges(path, registry))(key).contains(e));
        assert(keys.to_set().contains(key));
        over_holds(keys, w.entry_edges(path, registry), key, e);
        assert(names.to_set().contains(registry));
        assert((w.registry_fans(path))(registry).contains(e));
        over_holds(names, w.registry_fans(path), registry, e);
    }
}

proof fn import_edges_are_imports(w: World, path: Path, e: Edge)
    requires
        w.modules.dom().contains(path),
    ensures
        w.import_edges(false, path).contains(e) <==> e.0 != e.1 && e.0.0 == path && exists|next: Path|
            #[trigger] imports_as(w, e.0, e.1, next),
{
    let locals = w.modules[path].imports.keys();
    w.modules[path].imports.dom_is_finite();
    let f = w.import_fans(false, path);
    if w.import_edges(false, path).contains(e) {
        let local = over_has(locals, f, e);
        assert(locals.to_set().contains(local));
        let next = w.resolve(path, w.modules[path].imports@[local].source@)->0;
        assert(imports_as(w, e.0, e.1, next));
    }
    if e.0 != e.1 && e.0.0 == path && exists|next: Path| #[trigger] imports_as(w, e.0, e.1, next) {
        let next = choose|next: Path| #[trigger] imports_as(w, e.0, e.1, next);
        assert(locals.to_set().contains(e.0.1));
        assert(f(e.0.1).contains(e));
        over_holds(locals, f, e.0.1, e);
    }
}

proof fn request_edges_are_requests(w: World, path: Path, e: Edge)
    requires
        w.modules.dom().contains(path),
    ensures
        w.request_edges(path).contains(e) <==> e.0 != e.1 && e.0.0 == path && exists|request: Text|
            #[trigger] requests_as(w, e.0, e.1, request),
{
    let m = w.modules[path];
    let list = m.module_requests.list();
    let f = w.request_fan(path);
    if w.request_edges(path).contains(e) {
        let request = over_has(list, f, e);
        assert(m.module_requests@.contains(request));
        assert(requests_as(w, e.0, e.1, request));
    }
    if e.0 != e.1 && e.0.0 == path && exists|request: Text| #[trigger] requests_as(
        w,
        e.0,
        e.1,
        request,
    ) {
        let request = choose|request: Text| #[trigger] requests_as(w, e.0, e.1, request);
        assert(f(request).contains(e));
        over_holds(list, f, request, e);
    }
}

proof fn load_edges_are_loads(w: World, path: Path, e: Edge)
    requires
        w.modules.dom().contains(path),
    ensures
        w.load_edges(path).contains(e) <==> e.0 != e.1 && e.0.0 == path && exists|i: int, next: Path|
            #[trigger] loads_as(w, e.0, e.1, i, next),
{
    let loads = w.modules[path].runtime_loads@;
    let f = w.load_fans(path);
    if w.load_edges(path).contains(e) {
        let load = over_has(loads, f, e);
        let i = choose|i: int| 0 <= i < loads.len() && loads[i] == load;
        let next = w.resolve(path, load.source@)->0;
        let consumer = over_has(load.consumers.list(), w.load_fan(path, next), e);
        assert(load.consumers@.contains(consumer));
        assert(loads_as(w, e.0, e.1, i, next));
    }
    if e.0 != e.1 && e.0.0 == path && exists|i: int, next: Path| #[trigger] loads_as(
        w,
        e.0,
        e.1,
        i,
        next,
    ) {
        let (i, next) = choose|i: int, next: Path| #[trigger] loads_as(w, e.0, e.1, i, next);
        let load = loads[i];
        assert((w.load_fan(path, next))(e.0.1).contains(e));
        over_holds(load.consumers.list(), w.load_fan(path, next), e.0.1, e);
        assert(f(load).contains(e));
        over_holds(loads, f, load, e);
    }
}

proof fn target_edges_start(w: World, target: Target, e: Edge)
    ensures
        (w.target_edges())(target).contains(e) <==> e.0 != e.1 && starts_at(w, target, e.0, e.1),
{
    let path = normal(w.disk, normal(w.disk, target.entrypoint@));
    let all = w.everything(false, path);
    if all == Set::<NodeModel>::empty() {
        assert(exports_nothing(w, path));
    } else {
        assert(!exports_nothing(w, path)) by {
            if exports_nothing(w, path) {
                assert(all =~= Set::empty());
            }
        }
    }
}

/// The run-time edges of a linked graph are what the modules and the targets say: a symbol
/// depends on what its declaration mentions, or on the registry entries that it reads; a registry
/// on its entries, and an entry on what it holds; the local name of a value import on what is
/// imported and on the initialisation of its module; an initialisation on those of the modules
/// that are loaded; a symbol that loads a module by a call on all of its exports; and a target on
/// its entrypoint. Nothing depends on itself.
pub proof fn edges_are_dependencies(
    graph: DependencyGraph,
    targets: Seq<Target>,
    packages: Seq<Package>,
    c: NodeModel,
    d: NodeModel,
)
    requires
        graph.is_linked(targets, packages),
    ensures
        edges_in(graph.edges).contains((c, d)) <==> c != d && (depends_at_run_time(graph.world(), c, d)
            || exists|i: int|
            0 <= i < targets.len() && starts_at(graph.world(), #[trigger] targets[i], c, d)),
{
    let w = graph.world();
    let e: Edge = (c, d);
    let keys = graph.modules.keys();
    graph.modules.dom_is_finite();
    let f = |p: Path| w.runtime_edges(p);
    let path = c.0;
    if graph.module_edges().contains(e) {
        let p = over_has(keys, f, e);
        assert(keys.to_set().contains(p));
        parts_are_dependencies(w, p, e);
    }
    if w.modules.dom().contains(path) {
        parts_are_dependencies(w, path, e);
        if w.runtime_edges(path).contains(e) {
            assert(keys.to_set().contains(path));
            assert(f(path).contains(e));
            over_holds(keys, f, path, e);
        }
    }
    if union_over(targets, w.target_edges()).contains(e) {
        let target = over_has(targets, w.target_edges(), e);
        target_edges_start(w, target, e);
    }
    if c != d && exists|i: int| 0 <= i < targets.len() && starts_at(w, #[trigger] targets[i], c, d) {
        let i = choose|i: int| 0 <= i < targets.len() && starts_at(w, #[trigger] targets[i], c, d);
        target_edges_start(w, targets[i], e);
        over_holds(targets, w.target_edges(), targets[i], e);
    }
}

proof fn parts_are_dependencies(w: World, path: Path, e: Edge)
    requires
        w.modules.dom().contains(path),
    ensures
        w.runtime_edges(path).contains(e) <==> e.0 != e.1 && e.0.0 == path && depends_at_run_time(
            w,
            e.0,
            e.1,
        ),
{
    symbol_edges_are_mentions(w, path, e);
    registry_edges_are_entries(w, path, e);
    import_edges_are_imports(w, path, e);
    request_edges_are_requests(w, path, e);
    load_edges_are_loads(w, path, e);
}

/// `c` depends on `d` by its type: its declaration mentions the type `d`, or it is the local name
/// of a type import and `d` what is imported.
pub open spec fn depends_by_type(w: World, c: NodeModel, d: NodeModel) -> bool {
    let m = w.modules[c.0];
    &&& w.modules.dom().contains(c.0)
    &&& {
        ||| {
            &&& m.symbols@.dom().contains(c.1)
            &&& d.0 == c.0
            &&& m.symbols@[c.1].type_dependencies@.contains(d.1)
        }
        ||| {
            &&& m.type_imports@.dom().contains(c.1)
            &&& w.resolve(c.0, m.type_imports@[c.1].source@) matches Some(next)
            &&& w.taken(true, next, m.type_imports@[c.1].imported).contains(d)
        }
    }
}

/// The type edges of a linked graph: a symbol depends on the types that its declaration mentions,
/// and the local name of a type import on what is imported. Nothing depends on itself.
pub proof fn type_edges_are_dependencies(
    graph: DependencyGraph,
    targets: Seq<Target>,
    packages: Seq<Package>,
    c: NodeModel,
    d: NodeModel,
)
    requires
        graph.is_linked(targets, packages),
    ensures
        edges_in(graph.type_edges).contains((c, d)) <==> c != d && depends_by_type(
            graph.world(),
            c,
            d,
        ),
{
    let w = graph.world();
    let e: Edge = (c, d);
    let keys = graph.modules.keys();
    graph.modules.dom_is_finite();
    let f = |p: Path| w.type_edges(p);
    if edges_in(graph.type_edges).contains(e) {
        let p = over_has(keys, f, e);
        assert(keys.to_set().contains(p));
        type_parts_are_dependencies(w, p, e);
    }
    if c != d && depends_by_type(w, c, d) {
        type_parts_are_dependencies(w, c.0, e);
        assert(keys.to_set().contains(c.0));
        assert(f(c.0).contains(e));
        over_holds(keys, f, c.0, e);
    }
}

proof fn type_parts_are_dependencies(w: World, path: Path, e: Edge)
    requires
        w.modules.dom().contains(path),
    ensures
        w.type_edges(path).contains(e) <==> e.0 != e.1 && e.0.0 == path && depends_by_type(
            w,
            e.0,
            e.1,
        ),
{
    let m = w.modules[path];
    let symbols = m.symbols.keys();
    let locals = m.type_imports.keys();
    m.symbols.dom_is_finite();
    m.type_imports.dom_is_finite();
    if w.type_symbol_edges(path).contains(e) {
        let name = over_has(symbols, w.type_fans(path), e);
        assert(symbols.to_set().contains(name));
    }
    if w.import_edges(true, path).contains(e) {
        let local = over_has(locals, w.import_fans(true, path), e);
        assert(locals.to_set().contains(local));
    }
    if e.0 != e.1 && e.0.0 == path && depends_by_type(w, e.0, e.1) {
        let name = e.0.1;
        if m.symbols@.dom().contains(name) && e.1.0 == path
            && m.symbols@[name].type_dependencies@.contains(e.1.1) {
            assert(symbols.to_set().contains(name));
            assert((w.type_fans(path))(name).contains(e));
            over_holds(symbols, w.type_fans(path), name, e);
        } else {
            assert(locals.to_set().contains(name));
            assert((w.import_fans(true, path))(name).contains(e));
            over_holds(locals, w.import_fans(true, path), name, e);
        }
    }
}

/// The import of a module under a local name, of a value or of a type.
pub open spec fn is_import(w: World, types: bool, c: NodeModel, binding: ImportBinding) -> bool {
    let m = w.modules[c.0];
    let imports = if types {
        m.type_imports@
    } else {
        m.imports@
    };
    &&& w.modules.dom().contains(c.0)
    &&& imports.dom().contains(c.1)
    &&& imports[c.1] == binding
}

/// The edges that count for values or for types.
pub open spec fn edges_for(graph: DependencyGraph, types: bool) -> Set<Edge> {
    if types {
        edges_in(graph.type_edges)
    } else {
        edges_in(graph.edges)
    }
}

/// The local name of an import depends on every declaration behind the exports that the import
/// asks for, through any chain of re-exports and of modules that are passed on whole.
pub proof fn imports_depend_on_declarations(
    graph: DependencyGraph,
    targets: Seq<Target>,
    packages: Seq<Package>,
    types: bool,
    c: NodeModel,
    binding: ImportBinding,
    path: Path,
    asked: Slot,
    slot: Slot,
    node: NodeModel,
)
    requires
        graph.is_linked(targets, packages),
        is_import(graph.world(), types, c, binding),
        graph.world().resolve(c.0, binding.source@) == Some(path),
        asks_for(graph.world(), types, path, binding.imported, asked),
        reaches(passes(graph.world(), types), asked, slot),
        declares(graph.world(), types, slot, node),
        node != c,
    ensures
        edges_for(graph, types).contains((c, node)),
{
    let w = graph.world();
    graph.modules.dom_is_finite();
    own_imports_are_known(w, c.0, types, c.1);
    imports_take_declarations(w, types, path, binding.imported, asked, slot, node);
    if types {
        type_edges_are_dependencies(graph, targets, packages, c, node);
    } else {
        edges_are_dependencies(graph, targets, packages, c, node);
        assert(imports_as(w, c, node, path));
    }
}

/// An import of a name from a module that has no such export itself depends on the declaration
/// of a module that it passes on whole.
pub proof fn imports_follow_star_exports(
    graph: DependencyGraph,
    targets: Seq<Target>,
    packages: Seq<Package>,
    types: bool,
    c: NodeModel,
    binding: ImportBinding,
    name: String,
    path: Path,
    source: int,
    next: Path,
    node: NodeModel,
)
    requires
        graph.is_linked(targets, packages),
        is_import(graph.world(), types, c, binding),
        binding.imported == ImportedName::Named(name),
        graph.world().resolve(c.0, binding.source@) == Some(path),
        name@ != "default"@,
        is_bare(graph.world(), types, (path, name@)),
        stars_at(graph.world(), types, path, next, source),
        declares(graph.world(), types, (next, name@), node),
        node != c,
    ensures
        edges_for(graph, types).contains((c, node)),
{
    let w = graph.world();
    let r = passes(w, types);
    let a: Slot = (path, name@);
    let b: Slot = (next, name@);
    assert(r(a, b));
    assert(walk_between(r, seq![a, b], a, b));
    imports_depend_on_declarations(graph, targets, packages, types, c, binding, path, a, b, node);
}

/// An import of a name depends on the declaration that the module re-exports under that name.
pub proof fn imports_follow_re_exports(
    graph: DependencyGraph,
    targets: Seq<Target>,
    packages: Seq<Package>,
    types: bool,
    c: NodeModel,
    binding: ImportBinding,
    name: String,
    path: Path,
    entry: int,
    slot: Slot,
    node: NodeModel,
)
    requires
        graph.is_linked(targets, packages),
        is_import(graph.world(), types, c, binding),
        binding.imported == ImportedName::Named(name),
        graph.world().resolve(c.0, binding.source@) == Some(path),
        re_exports_at(graph.world(), types, (path, name@), slot, entry),
        declares(graph.world(), types, slot, node),
        node != c,
    ensures
        edges_for(graph, types).contains((c, node)),
{
    let w = graph.world();
    let r = passes(w, types);
    let a: Slot = (path, name@);
    assert(r(a, slot));
    assert(walk_between(r, seq![a, slot], a, slot));
    imports_depend_on_declarations(graph, targets, packages, types, c, binding, path, a, slot, node);
}

/// An import of a name depends on the declaration that the module exports under that name.
pub proof fn imports_depend_on_own_exports(
    graph: DependencyGraph,
    targets: Seq<Target>,
    packages: Seq<Package>,
    types: bool,
    c: NodeModel,
    binding: ImportBinding,
    name: String,
    path: Path,
    node: NodeModel,
)
    requires
        graph.is_linked(targets, packages),
        is_import(graph.world(), types, c, binding),
        binding.imported == ImportedName::Named(name),
        graph.world().resolve(c.0, binding.source@) == Some(path),
        declares(graph.world(), types, (path, name@), node),
        node != c,
    ensures
        edges_for(graph, types).contains((c, node)),
{
    let a: Slot = (path, name@);
    reaches_self(passes(graph.world(), types), a);
    imports_depend_on_declarations(graph, targets, packages, types, c, binding, path, a, a, node);
}

/// A value import depends on the initialisation of the module that it imports from.
pub proof fn imports_depend_on_initialisation(
    graph: DependencyGraph,
    targets: Seq<Target>,
    packages: Seq<Package>,
    c: NodeModel,
    binding: ImportBinding,
    path: Path,
)
    requires
        graph.is_linked(targets, packages),
        is_import(graph.world(), false, c, binding),
        graph.world().resolve(c.0, binding.source@) == Some(path),
        c != (path, MODULE_INIT@),
    ensures
        edges_in(graph.edges).contains((c, (path, MODULE_INIT@))),
{
    edges_are_dependencies(graph, targets, packages, c, (path, MODULE_INIT@));
    assert(imports_as(graph.world(), c, (path, MODULE_INIT@), path));
}

/// An import of `default` from a module that neither declares nor re-exports it leads to no
/// declaration, whatever the module passes on whole: a type import to nothing, a value import to
/// the initialisation of the module.
pub proof fn default_imports_gain_nothing_from_stars(
    graph: DependencyGraph,
    types: bool,
    c: NodeModel,
    binding: ImportBinding,
    name: String,
    path: Path,
)
    requires
        is_import(graph.world(), types, c, binding),
        binding.imported == ImportedName::Named(name),
        name@ == "default"@,
        graph.world().resolve(c.0, binding.source@) == Some(path),
        is_bare(graph.world(), types, (path, "default"@)),
    ensures
        graph.world().import_targets(types, c.0, binding) == if types {
            Set::<NodeModel>::empty()
        } else {
            set![(path, MODULE_INIT@)]
        },
{
    graph.modules.dom_is_finite();
    default_exports_are_not_passed_on(graph.world(), types, path);
}

} // verus!
