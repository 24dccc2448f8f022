//! The edges and findings that one module contributes to the graph.
use vstd::prelude::*;

use crate::collections::{
    pairs, push_to_set, union_over, union_over_all, union_over_next, union_over_none, KeyMap, KeySet,
};
use crate::diagnostics::{Diagnostic, Severity};
use crate::graph::imports::own_imports_are_known;
use crate::graph::node::{Node, NodeModel};
use crate::graph::resolve::{Scope, World};
use crate::order::{models, Key};
use crate::parser::{
    entry_symbol, registry_entry_symbol, ImportedName, ParsedModule, RuntimeLoad, SymbolInfo,
    MODULE_INIT,
};
use crate::path::FilePath;
use crate::text::join3;

verus! {

/// A consumer and what it depends on.
pub type Edge = (NodeModel, NodeModel);

pub type EdgeMap = KeyMap<Node, KeySet<Node>>;

/// The edges of a map from consumers to dependencies.
pub open spec fn edges_in(m: EdgeMap) -> Set<Edge> {
    pairs::<Node, Node>(m@)
}

/// The nodes that depend on something.
pub open spec fn consumers(edges: Set<Edge>) -> Set<NodeModel> {
    Set::new(|n: NodeModel| exists|d: NodeModel| #[trigger] edges.contains((n, d)))
}

/// The keys of `b` are those of `a` and the nodes that depend on something in `b`.
pub open spec fn adds_keys(a: EdgeMap, b: EdgeMap) -> bool {
    b@.dom() == a@.dom().union(consumers(edges_in(b)))
}

/// A key without dependencies.
pub open spec fn is_idle(edges: EdgeMap, n: NodeModel) -> bool {
    edges@.dom().contains(n) && !consumers(edges_in(edges)).contains(n)
}

/// `b` keeps the keys of `a`, and has no more keys without dependencies.
pub open spec fn grows(a: EdgeMap, b: EdgeMap) -> bool {
    &&& forall|n: NodeModel| #[trigger] a@.dom().contains(n) ==> b@.dom().contains(n)
    &&& forall|n: NodeModel| #[trigger] is_idle(b, n) ==> is_idle(a, n)
}

pub(crate) proof fn growing_adds_keys(a: EdgeMap, b: EdgeMap)
    requires
        grows(a, b),
    ensures
        adds_keys(a, b),
{
    assert forall|n: NodeModel| b@.dom().contains(n) == a@.dom().union(
        consumers(edges_in(b)),
    ).contains(n) by {
        if b@.dom().contains(n) && !consumers(edges_in(b)).contains(n) {
            assert(is_idle(b, n));
        }
        if consumers(edges_in(b)).contains(n) {
            let d = choose|d: NodeModel| #[trigger] edges_in(b).contains((n, d));
            assert(b@.dom().contains(n));
        }
    }
    assert(b@.dom() =~= a@.dom().union(consumers(edges_in(b))));
}

pub(crate) proof fn adding_no_keys(a: EdgeMap)
    ensures
        adds_keys(a, a),
{
    assert(grows(a, a));
    growing_adds_keys(a, a);
}

pub(crate) proof fn adding_keys_twice(a: EdgeMap, b: EdgeMap, c: EdgeMap)
    requires
        adds_keys(a, b),
        adds_keys(b, c),
        edges_in(b).subset_of(edges_in(c)),
    ensures
        adds_keys(a, c),
{
    assert forall|n: NodeModel| consumers(edges_in(b)).contains(n) implies consumers(
        edges_in(c),
    ).contains(n) by {
        let d = choose|d: NodeModel| #[trigger] edges_in(b).contains((n, d));
        assert(edges_in(c).contains((n, d)));
    }
    assert(c@.dom() =~= a@.dom().union(consumers(edges_in(c))));
}

/// The edges from one consumer to each of `targets`; nothing depends on itself.
pub open spec fn fan(consumer: NodeModel, targets: Set<NodeModel>) -> Set<Edge> {
    Set::new(|e: Edge| e.0 == consumer && e.1 != consumer && targets.contains(e.1))
}

pub(crate) fn add_edge(edges: &mut EdgeMap, consumer: Node, dependency: Node)
    ensures
        grows(*old(edges), *final(edges)),
        edges_in(*final(edges)) == edges_in(*old(edges)).union(fan(consumer@, set![dependency@])),
{
    let ghost start = edges_in(*edges);
    let ghost c = consumer@;
    let ghost d = dependency@;
    if !consumer.same_as(&dependency) {
        let ghost before = *edges;
        edges.link(consumer, dependency);
        assert(edges_in(*edges) =~= start.union(fan(c, set![d])));
        assert forall|n: NodeModel| #[trigger] is_idle(*edges, n) implies is_idle(before, n) by {
            if n == c {
                assert(edges_in(*edges).contains((c, d)));
            }
            if consumers(edges_in(before)).contains(n) {
                let x = choose|x: NodeModel| #[trigger] edges_in(before).contains((n, x));
                assert(edges_in(*edges).contains((n, x)));
            }
        }
    } else {
        assert(start =~= start.union(fan(c, set![d])));
    }
}

pub(crate) fn add_edges(edges: &mut EdgeMap, consumer: &Node, dependencies: &KeySet<Node>)
    ensures
        grows(*old(edges), *final(edges)),
        edges_in(*final(edges)) == edges_in(*old(edges)).union(fan(consumer@, dependencies@)),
{
    let ghost start = edges_in(*edges);
    let ghost list = dependencies.list();
    let ghost c = consumer@;
    let ghost f = |d: NodeModel| fan(c, set![d]);
    let n = dependencies.len();
    let mut i: usize = 0;
    proof {
        union_over_none(list.take(0), f);
        assert(start.union(Set::empty()) =~= start);
    }
    while i < n
        invariant
            i <= n,
            n == list.len(),
            list == dependencies.list(),
            c == consumer@,
            f == (|d: NodeModel| fan(c, set![d])),
            grows(*old(edges), *edges),
            edges_in(*edges) == start.union(union_over(list.take(i as int), f)),
        decreases n - i,
    {
        add_edge(edges, consumer.dup(), dependencies.at(i).dup());
        proof {
            union_over_next(list, f, i as int);
            assert(edges_in(*edges) =~= start.union(union_over(list.take(i + 1), f)));
        }
        i += 1;
    }
    proof {
        union_over_all(list, f, n as int);
        assert forall|e: Edge| union_over(list, f).contains(e) == fan(c, dependencies@).contains(e) by {
            if union_over(list, f).contains(e) {
                let k = choose|k: int| 0 <= k < list.len() && (#[trigger] f(list[k])).contains(e);
                assert(list.contains(list[k]));
            }
            if fan(c, dependencies@).contains(e) {
                let k = choose|k: int| 0 <= k < list.len() && list[k] == e.1;
                assert(f(list[k]).contains(e));
            }
        }
        assert(union_over(list, f) =~= fan(c, dependencies@));
    }
}

/// A finding as a mathematical value.
pub type Finding = <Diagnostic as Key>::M;

pub open spec fn finding(
    code: Seq<char>,
    severity: Severity,
    message: Seq<char>,
    path: Option<Seq<Seq<char>>>,
    members: Seq<Seq<Seq<char>>>,
) -> Finding {
    (code, (severity, (message, (path, members))))
}

/// The findings in a list.
pub open spec fn findings_in(list: Seq<Diagnostic>) -> Set<Finding> {
    models(list).to_set()
}

pub(crate) fn report(list: &mut Vec<Diagnostic>, item: Diagnostic)
    ensures
        findings_in(final(list)@) == findings_in(old(list)@).insert(item.model()),
        final(list)@ == old(list)@.push(item),
{
    let ghost start = models(list@);
    let ghost m = item.model();
    list.push(item);
    proof {
        assert(models(list@) =~= start.push(m));
        push_to_set(start, m);
    }
}

impl World {
    /// What one dependency of a symbol leads to: the registry entries that it reads where only
    /// known keys are read, else the symbol itself.
    pub open spec fn dependency_targets(
        self,
        path: Seq<Seq<char>>,
        symbol: SymbolInfo,
        dependency: Seq<char>,
    ) -> Set<NodeModel> {
        let keyed = if symbol.keyed_dependencies@.dom().contains(dependency) {
            self.keyed(path, dependency, symbol.keyed_dependencies@[dependency]@)
        } else {
            None
        };
        match keyed {
            Some(nodes) => nodes,
            None => set![(path, dependency)],
        }
    }

    pub open spec fn symbol_fan(self, path: Seq<Seq<char>>, name: Seq<char>) -> spec_fn(Seq<char>) -> Set<
        Edge,
    > {
        |d: Seq<char>|
            fan(
                (path, name),
                self.dependency_targets(path, self.modules[path].symbols@[name], d),
            )
    }

    pub open spec fn symbol_fans(self, path: Seq<Seq<char>>) -> spec_fn(Seq<char>) -> Set<Edge> {
        |name: Seq<char>|
            union_over(
                self.modules[path].symbols@[name].dependencies.list(),
                self.symbol_fan(path, name),
            )
    }

    /// The edges from the symbols of a module to what their declarations mention.
    pub open spec fn symbol_edges(self, path: Seq<Seq<char>>) -> Set<Edge> {
        union_over(self.modules[path].symbols.keys(), self.symbol_fans(path))
    }

    pub open spec fn type_fans(self, path: Seq<Seq<char>>) -> spec_fn(Seq<char>) -> Set<Edge> {
        |name: Seq<char>|
            fan(
                (path, name),
                Set::new(
                    |n: NodeModel|
                        n.0 == path
                            && self.modules[path].symbols@[name].type_dependencies@.contains(n.1),
                ),
            )
    }

    /// The edges from the symbols of a module to the types that their declarations mention.
    pub open spec fn type_symbol_edges(self, path: Seq<Seq<char>>) -> Set<Edge> {
        union_over(self.modules[path].symbols.keys(), self.type_fans(path))
    }

    pub open spec fn entry_edges(self, path: Seq<Seq<char>>, registry: Seq<char>) -> spec_fn(
        Seq<char>,
    ) -> Set<Edge> {
        |key: Seq<char>|
            {
                let entry: NodeModel = (path, entry_symbol(registry, key));
                let inner = match self.modules[path].registries@[registry].entries@[key].dependency {
                    Some(d) => fan(entry, set![(path, d@)]),
                    None => Set::empty(),
                };
                fan((path, registry), set![entry]).union(inner)
            }
    }

    pub open spec fn registry_fans(self, path: Seq<Seq<char>>) -> spec_fn(Seq<char>) -> Set<Edge> {
        |registry: Seq<char>|
            union_over(
                self.modules[path].registries@[registry].entries.keys(),
                self.entry_edges(path, registry),
            )
    }

    /// The edges from registries to their entries and from the entries to what they hold.
    pub open spec fn registry_edges(self, path: Seq<Seq<char>>) -> Set<Edge> {
        union_over(self.modules[path].registries.keys(), self.registry_fans(path))
    }

    pub open spec fn import_fans(self, types: bool, path: Seq<Seq<char>>) -> spec_fn(Seq<char>) -> Set<
        Edge,
    > {
        |local: Seq<char>|
            {
                let imports = if types {
                    self.modules[path].type_imports@
                } else {
                    self.modules[path].imports@
                };
                fan((path, local), self.import_targets(types, path, imports[local]))
            }
    }

    /// The edges from the local names of imports to what they import.
    pub open spec fn import_edges(self, types: bool, path: Seq<Seq<char>>) -> Set<Edge> {
        let locals = if types {
            self.modules[path].type_imports.keys()
        } else {
            self.modules[path].imports.keys()
        };
        union_over(locals, self.import_fans(types, path))
    }

    pub open spec fn request_fan(self, path: Seq<Seq<char>>) -> spec_fn(Seq<char>) -> Set<Edge> {
        |request: Seq<char>|
            match self.resolve(path, request) {
                Some(next) => fan((path, MODULE_INIT@), set![(next, MODULE_INIT@)]),
                None => Set::empty(),
            }
    }

    /// The edges from the initialisation of a module to that of the modules it loads.
    pub open spec fn request_edges(self, path: Seq<Seq<char>>) -> Set<Edge> {
        union_over(self.modules[path].module_requests.list(), self.request_fan(path))
    }

    pub open spec fn load_fan(self, path: Seq<Seq<char>>, next: Seq<Seq<char>>) -> spec_fn(
        Seq<char>,
    ) -> Set<Edge> {
        |consumer: Seq<char>|
            fan((path, consumer), self.everything(false, next).insert((next, MODULE_INIT@)))
    }

    pub open spec fn load_fans(self, path: Seq<Seq<char>>) -> spec_fn(RuntimeLoad) -> Set<Edge> {
        |load: RuntimeLoad|
            match self.resolve(path, load.source@) {
                Some(next) => union_over(load.consumers.list(), self.load_fan(path, next)),
                None => Set::empty(),
            }
    }

    /// The edges from the symbols that load a module by a call to all that it exports.
    pub open spec fn load_edges(self, path: Seq<Seq<char>>) -> Set<Edge> {
        union_over(self.modules[path].runtime_loads@, self.load_fans(path))
    }

    /// All run-time edges that start in the module at `path`.
    pub open spec fn runtime_edges(self, path: Seq<Seq<char>>) -> Set<Edge> {
        self.symbol_edges(path).union(self.registry_edges(path)).union(
            self.import_edges(false, path),
        ).union(self.request_edges(path)).union(self.load_edges(path))
    }

    /// All type edges that start in the module at `path`.
    pub open spec fn type_edges(self, path: Seq<Seq<char>>) -> Set<Edge> {
        self.type_symbol_edges(path).union(self.import_edges(true, path))
    }

    /// The finding about a request that leads nowhere: an error where a package of the
    /// workspace was meant, else a warning.
    pub open spec fn unresolved(
        self,
        path: Seq<Seq<char>>,
        request: Seq<char>,
        message: Seq<char>,
    ) -> Finding {
        if self.is_workspace_request(request) {
            finding(
                "MONORIPPLE_UNRESOLVED_WORKSPACE_IMPORT"@,
                Severity::Error,
                message,
                Some(path),
                Seq::empty(),
            )
        } else {
            finding(
                "MONORIPPLE_UNRESOLVED_LOCAL_IMPORT"@,
                Severity::Warning,
                message,
                Some(path),
                Seq::empty(),
            )
        }
    }

    pub open spec fn dynamic_finding(self, path: Seq<Seq<char>>) -> spec_fn(String) -> Set<Finding> {
        |expression: String|
            set![
                finding(
                    "MONORIPPLE_DYNAMIC_IMPORT_NON_LITERAL"@,
                    Severity::Warning,
                    "dynamic import `"@ + expression@
                        + "` cannot be resolved to a finite module set"@,
                    Some(path),
                    Seq::empty(),
                ),
            ]
    }

    pub open spec fn import_finding(self, path: Seq<Seq<char>>) -> spec_fn(Seq<char>) -> Set<Finding> {
        |local: Seq<char>|
            {
                let import = self.modules[path].imports@[local];
                match self.resolve(path, import.source@) {
                    None => if self.is_internal(import.source@) {
                        set![
                            self.unresolved(
                                path,
                                import.source@,
                                "cannot resolve imported module `"@ + import.source@ + "`"@,
                            ),
                        ]
                    } else {
                        Set::empty()
                    },
                    Some(_) => if import.imported matches ImportedName::Namespace { members: None } {
                        set![
                            finding(
                                "MONORIPPLE_NAMESPACE_DYNAMIC_ACCESS"@,
                                Severity::Warning,
                                "namespace import `"@ + local
                                    + "` uses dynamic access; all exports are dependencies"@,
                                Some(path),
                                Seq::empty(),
                            ),
                        ]
                    } else {
                        Set::empty()
                    },
                }
            }
    }

    /// Some value import of the module comes from `request`.
    pub open spec fn imports_from(self, path: Seq<Seq<char>>, request: Seq<char>) -> bool {
        exists|local: Seq<char>|
            self.modules[path].imports@.dom().contains(local)
                && (#[trigger] self.modules[path].imports@[local]).source@ == request
    }

    pub open spec fn runtime_finding(self, path: Seq<Seq<char>>, request: Seq<char>) -> Set<Finding> {
        if self.resolve(path, request) is None && self.is_internal(request) {
            set![
                self.unresolved(path, request, "cannot resolve runtime module `"@ + request + "`"@),
            ]
        } else {
            Set::empty()
        }
    }

    pub open spec fn request_finding(self, path: Seq<Seq<char>>) -> spec_fn(Seq<char>) -> Set<Finding> {
        |request: Seq<char>|
            if self.imports_from(path, request) {
                Set::empty()
            } else {
                self.runtime_finding(path, request)
            }
    }

    pub open spec fn load_finding(self, path: Seq<Seq<char>>) -> spec_fn(RuntimeLoad) -> Set<Finding> {
        |load: RuntimeLoad| self.runtime_finding(path, load.source@)
    }

    /// The findings about one module: dynamic imports that name no module, requests that lead
    /// nowhere, and namespaces that are used as a whole.
    pub open spec fn findings(self, path: Seq<Seq<char>>) -> Set<Finding> {
        let m = self.modules[path];
        union_over(m.unresolved_dynamic_imports@, self.dynamic_finding(path)).union(
            union_over(m.imports.keys(), self.import_finding(path)),
        ).union(union_over(m.module_requests.list(), self.request_finding(path))).union(
            union_over(m.runtime_loads@, self.load_finding(path)),
        )
    }
}

impl<'a> Scope<'a> {
    fn link_symbol(&self, path: &FilePath, name: &String, symbol: &SymbolInfo, edges: &mut EdgeMap)
        requires
            self@.modules.dom().contains(path@),
            self@.modules[path@].symbols@.dom().contains(name@),
            self@.modules[path@].symbols@[name@] == *symbol,
        ensures
            grows(*old(edges), *final(edges)),
            edges_in(*final(edges)) == edges_in(*old(edges)).union(
                (self@.symbol_fans(path@))(name@),
            ),
    {
        let ghost w = self@;
        let ghost start = edges_in(*edges);
        let ghost list = symbol.dependencies.list();
        let ghost f = w.symbol_fan(path@, name@);
        let consumer = Node { file: path.dup(), symbol: name.clone() };
        let n = symbol.dependencies.len();
        proof {
            union_over_none(list.take(0), f);
            assert(start.union(Set::empty()) =~= start);
        }
        let mut i: usize = 0;
        while i < n
            invariant
                i <= n,
                n == list.len(),
                list == symbol.dependencies.list(),
                w == self@,
                w.modules[path@].symbols@[name@] == *symbol,
                consumer@ == (path@, name@),
                f == w.symbol_fan(path@, name@),
                grows(*old(edges), *edges),
                edges_in(*edges) == start.union(union_over(list.take(i as int), f)),
            decreases n - i,
        {
            let dependency = symbol.dependencies.at(i);
            let keyed = match symbol.keyed_dependencies.get(dependency) {
                Some(keys) => self.resolve_keyed_dependency(path, dependency, keys),
                None => None,
            };
            match keyed {
                Some(nodes) => add_edges(edges, &consumer, &nodes),
                None => add_edge(
                    edges,
                    consumer.dup(),
                    Node { file: path.dup(), symbol: dependency.clone() },
                ),
            }
            proof {
                union_over_next(list, f, i as int);
                assert(edges_in(*edges) =~= start.union(union_over(list.take(i + 1), f)));
            }
            i += 1;
        }
        proof {
            union_over_all(list, f, n as int);
        }
    }

    fn link_symbols(&self, path: &FilePath, m: &ParsedModule, edges: &mut EdgeMap)
        requires
            self@.modules.dom().contains(path@),
            self@.modules[path@] == *m,
        ensures
            grows(*old(edges), *final(edges)),
            edges_in(*final(edges)) == edges_in(*old(edges)).union(self@.symbol_edges(path@)),
    {
        let ghost w = self@;
        let ghost start = edges_in(*edges);
        let ghost list = m.symbols.keys();
        let ghost f = w.symbol_fans(path@);
        let n = m.symbols.len();
        proof {
            union_over_none(list.take(0), f);
            assert(start.union(Set::empty()) =~= start);
        }
        let mut i: usize = 0;
        while i < n
            invariant
                i <= n,
                n == list.len(),
                list == m.symbols.keys(),
                w == self@,
                w.modules.dom().contains(path@),
                w.modules[path@] == *m,
                f == w.symbol_fans(path@),
                grows(*old(edges), *edges),
                edges_in(*edges) == start.union(union_over(list.take(i as int), f)),
            decreases n - i,
        {
            self.link_symbol(path, m.symbols.key_at(i), m.symbols.value_at(i), edges);
            proof {
                union_over_next(list, f, i as int);
                assert(edges_in(*edges) =~= start.union(union_over(list.take(i + 1), f)));
            }
            i += 1;
        }
        proof {
            union_over_all(list, f, n as int);
        }
    }

    fn link_types(&self, path: &FilePath, m: &ParsedModule, edges: &mut EdgeMap)
        requires
            self@.modules.dom().contains(path@),
            self@.modules[path@] == *m,
        ensures
            grows(*old(edges), *final(edges)),
            edges_in(*final(edges)) == edges_in(*old(edges)).union(self@.type_symbol_edges(path@)),
    {
        let ghost w = self@;
        let ghost start = edges_in(*edges);
        let ghost list = m.symbols.keys();
        let ghost f = w.type_fans(path@);
        let n = m.symbols.len();
        proof {
            union_over_none(list.take(0), f);
            assert(start.union(Set::empty()) =~= start);
        }
        let mut i: usize = 0;
        while i < n
            invariant
                i <= n,
                n == list.len(),
                list == m.symbols.keys(),
                w == self@,
                w.modules.dom().contains(path@),
                w.modules[path@] == *m,
                f == w.type_fans(path@),
                grows(*old(edges), *edges),
                edges_in(*edges) == start.union(union_over(list.take(i as int), f)),
            decreases n - i,
        {
            let name = m.symbols.key_at(i);
            let symbol = m.symbols.value_at(i);
            let nodes = nodes_in(path, &symbol.type_dependencies);
            add_edges(edges, &Node { file: path.dup(), symbol: name.clone() }, &nodes);
            proof {
                union_over_next(list, f, i as int);
                assert(edges_in(*edges) =~= start.union(union_over(list.take(i + 1), f)));
            }
            i += 1;
        }
        proof {
            union_over_all(list, f, n as int);
        }
    }

    fn link_registry(&self, path: &FilePath, m: &ParsedModule, registry: &String, edges: &mut EdgeMap)
        requires
            self@.modules.dom().contains(path@),
            self@.modules[path@] == *m,
            m.registries@.dom().contains(registry@),
        ensures
            grows(*old(edges), *final(edges)),
            edges_in(*final(edges)) == edges_in(*old(edges)).union(
                (self@.registry_fans(path@))(registry@),
            ),
    {
        let ghost w = self@;
        let ghost start = edges_in(*edges);
        let info = m.registries.get(registry).unwrap();
        let ghost list = info.entries.keys();
        let ghost f = w.entry_edges(path@, registry@);
        let n = info.entries.len();
        proof {
            union_over_none(list.take(0), f);
            assert(start.union(Set::empty()) =~= start);
        }
        let mut i: usize = 0;
        while i < n
            invariant
                i <= n,
                n == list.len(),
                list == info.entries.keys(),
                w == self@,
                w.modules[path@].registries@[registry@] == *info,
                f == w.entry_edges(path@, registry@),
                grows(*old(edges), *edges),
                edges_in(*edges) == start.union(union_over(list.take(i as int), f)),
            decreases n - i,
        {
            let key = info.entries.key_at(i);
            let entry = info.entries.value_at(i);
            let node = Node {
                file: path.dup(),
                symbol: registry_entry_symbol(registry.as_str(), key.as_str()),
            };
            add_edge(edges, Node { file: path.dup(), symbol: registry.clone() }, node.dup());
            match &entry.dependency {
                Some(dependency) => add_edge(
                    edges,
                    node,
                    Node { file: path.dup(), symbol: dependency.clone() },
                ),
                None => {},
            }
            proof {
                union_over_next(list, f, i as int);
                assert(edges_in(*edges) =~= start.union(union_over(list.take(i + 1), f)));
            }
            i += 1;
        }
        proof {
            union_over_all(list, f, n as int);
        }
    }

    fn link_registries(&self, path: &FilePath, m: &ParsedModule, edges: &mut EdgeMap)
        requires
            self@.modules.dom().contains(path@),
            self@.modules[path@] == *m,
        ensures
            grows(*old(edges), *final(edges)),
            edges_in(*final(edges)) == edges_in(*old(edges)).union(self@.registry_edges(path@)),
    {
        let ghost w = self@;
        let ghost start = edges_in(*edges);
        let ghost list = m.registries.keys();
        let ghost f = w.registry_fans(path@);
        let n = m.registries.len();
        proof {
            union_over_none(list.take(0), f);
            assert(start.union(Set::empty()) =~= start);
        }
        let mut i: usize = 0;
        while i < n
            invariant
                i <= n,
                n == list.len(),
                list == m.registries.keys(),
                w == self@,
                w.modules.dom().contains(path@),
                w.modules[path@] == *m,
                f == w.registry_fans(path@),
                grows(*old(edges), *edges),
                edges_in(*edges) == start.union(union_over(list.take(i as int), f)),
            decreases n - i,
        {
            self.link_registry(path, m, m.registries.key_at(i), edges);
            proof {
                union_over_next(list, f, i as int);
                assert(edges_in(*edges) =~= start.union(union_over(list.take(i + 1), f)));
            }
            i += 1;
        }
        proof {
            union_over_all(list, f, n as int);
        }
    }

    fn link_imports(&self, types: bool, path: &FilePath, m: &ParsedModule, edges: &mut EdgeMap)
        requires
            self@.modules.dom().contains(path@),
            self@.modules[path@] == *m,
        ensures
            grows(*old(edges), *final(edges)),
            edges_in(*final(edges)) == edges_in(*old(edges)).union(self@.import_edges(types, path@)),
    {
        let ghost w = self@;
        let ghost start = edges_in(*edges);
        let imports = if types {
            &m.type_imports
        } else {
            &m.imports
        };
        let ghost list = imports.keys();
        let ghost f = w.import_fans(types, path@);
        let n = imports.len();
        proof {
            union_over_none(list.take(0), f);
            assert(start.union(Set::empty()) =~= start);
        }
        let mut i: usize = 0;
        while i < n
            invariant
                i <= n,
                n == list.len(),
                list == imports.keys(),
                *imports == (if types { m.type_imports } else { m.imports }),
                w == self@,
                w.modules.dom().contains(path@),
                w.modules[path@] == *m,
                f == w.import_fans(types, path@),
                grows(*old(edges), *edges),
                edges_in(*edges) == start.union(union_over(list.take(i as int), f)),
            decreases n - i,
        {
            let local = imports.key_at(i);
            let import = imports.value_at(i);
            match self.resolve(path, import.source.as_str()) {
                Some(next) => {
                    let consumer = Node { file: path.dup(), symbol: local.clone() };
                    proof {
                        own_imports_are_known(w, path@, types, local@);
                    }
                    let taken = self.taken(types, &next, &import.imported);
                    add_edges(edges, &consumer, &taken);
                    if !types {
                        add_edge(edges, consumer, Node { file: next, symbol: MODULE_INIT.to_owned() });
                    }
                },
                None => {},
            }
            proof {
                union_over_next(list, f, i as int);
                assert(edges_in(*edges) =~= start.union(union_over(list.take(i + 1), f)));
            }
            i += 1;
        }
        proof {
            union_over_all(list, f, n as int);
        }
    }

    fn link_requests(&self, path: &FilePath, m: &ParsedModule, edges: &mut EdgeMap)
        requires
            self@.modules.dom().contains(path@),
            self@.modules[path@] == *m,
        ensures
            grows(*old(edges), *final(edges)),
            edges_in(*final(edges)) == edges_in(*old(edges)).union(self@.request_edges(path@)),
    {
        let ghost w = self@;
        let ghost start = edges_in(*edges);
        let ghost list = m.module_requests.list();
        let ghost f = w.request_fan(path@);
        let n = m.module_requests.len();
        proof {
            union_over_none(list.take(0), f);
            assert(start.union(Set::empty()) =~= start);
        }
        let mut i: usize = 0;
        while i < n
            invariant
                i <= n,
                n == list.len(),
                list == m.module_requests.list(),
                w == self@,
                f == w.request_fan(path@),
                grows(*old(edges), *edges),
                edges_in(*edges) == start.union(union_over(list.take(i as int), f)),
            decreases n - i,
        {
            match self.resolve(path, m.module_requests.at(i).as_str()) {
                Some(next) => add_edge(
                    edges,
                    Node { file: path.dup(), symbol: MODULE_INIT.to_owned() },
                    Node { file: next, symbol: MODULE_INIT.to_owned() },
                ),
                None => {},
            }
            proof {
                union_over_next(list, f, i as int);
                assert(edges_in(*edges) =~= start.union(union_over(list.take(i + 1), f)));
            }
            i += 1;
        }
        proof {
            union_over_all(list, f, n as int);
        }
    }

    fn link_load(&self, path: &FilePath, next: &FilePath, consumers: &KeySet<String>, edges: &mut EdgeMap)
        ensures
            grows(*old(edges), *final(edges)),
            edges_in(*final(edges)) == edges_in(*old(edges)).union(
                union_over(consumers.list(), self@.load_fan(path@, next@)),
            ),
    {
        let ghost w = self@;
        let ghost start = edges_in(*edges);
        let ghost list = consumers.list();
        let ghost f = w.load_fan(path@, next@);
        let n = consumers.len();
        let mut targets = self.everything(false, next);
        targets.insert(Node { file: next.dup(), symbol: MODULE_INIT.to_owned() });
        proof {
            union_over_none(list.take(0), f);
            assert(start.union(Set::empty()) =~= start);
        }
        let mut i: usize = 0;
        while i < n
            invariant
                i <= n,
                n == list.len(),
                list == consumers.list(),
                w == self@,
                f == w.load_fan(path@, next@),
                targets@ == w.everything(false, next@).insert((next@, MODULE_INIT@)),
                grows(*old(edges), *edges),
                edges_in(*edges) == start.union(union_over(list.take(i as int), f)),
            decreases n - i,
        {
            let consumer = Node { file: path.dup(), symbol: consumers.at(i).clone() };
            add_edges(edges, &consumer, &targets);
            proof {
                union_over_next(list, f, i as int);
                assert(edges_in(*edges) =~= start.union(union_over(list.take(i + 1), f)));
            }
            i += 1;
        }
        proof {
            union_over_all(list, f, n as int);
        }
    }

    fn link_loads(&self, path: &FilePath, m: &ParsedModule, edges: &mut EdgeMap)
        requires
            self@.modules.dom().contains(path@),
            self@.modules[path@] == *m,
        ensures
            grows(*old(edges), *final(edges)),
            edges_in(*final(edges)) == edges_in(*old(edges)).union(self@.load_edges(path@)),
    {
        let ghost w = self@;
        let ghost start = edges_in(*edges);
        let ghost list = m.runtime_loads@;
        let ghost f = w.load_fans(path@);
        let n = m.runtime_loads.len();
        proof {
            union_over_none(list.take(0), f);
            assert(start.union(Set::empty()) =~= start);
        }
        let mut i: usize = 0;
        while i < n
            invariant
                i <= n,
                n == list.len(),
                list == m.runtime_loads@,
                w == self@,
                f == w.load_fans(path@),
                grows(*old(edges), *edges),
                edges_in(*edges) == start.union(union_over(list.take(i as int), f)),
            decreases n - i,
        {
            let load = &m.runtime_loads[i];
            match self.resolve(path, load.source.as_str()) {
                Some(next) => self.link_load(path, &next, &load.consumers, edges),
                None => {},
            }
            proof {
                union_over_next(list, f, i as int);
                assert(edges_in(*edges) =~= start.union(union_over(list.take(i + 1), f)));
            }
            i += 1;
        }
        proof {
            union_over_all(list, f, n as int);
        }
    }

    /// Adds the edges that start in one module.
    pub(crate) fn link_module(
        &self,
        path: &FilePath,
        m: &ParsedModule,
        edges: &mut EdgeMap,
        type_edges: &mut EdgeMap,
    )
        requires
            self@.modules.dom().contains(path@),
            self@.modules[path@] == *m,
        ensures
            grows(*old(edges), *final(edges)),
            edges_in(*final(edges)) == edges_in(*old(edges)).union(self@.runtime_edges(path@)),
            grows(*old(type_edges), *final(type_edges)),
            edges_in(*final(type_edges)) == edges_in(*old(type_edges)).union(
                self@.type_edges(path@),
            ),
    {
        let ghost a = edges_in(*edges);
        let ghost b = edges_in(*type_edges);
        self.link_symbols(path, m, edges);
        self.link_registries(path, m, edges);
        self.link_imports(false, path, m, edges);
        self.link_requests(path, m, edges);
        self.link_loads(path, m, edges);
        self.link_types(path, m, type_edges);
        self.link_imports(true, path, m, type_edges);
        assert(edges_in(*edges) =~= a.union(self@.runtime_edges(path@)));
        assert(edges_in(*type_edges) =~= b.union(self@.type_edges(path@)));
    }

    fn unresolved(&self, path: &FilePath, request: &str, message: String) -> (r: Diagnostic)
        ensures
            r.model() == self@.unresolved(path@, request@, message@),
    {
        let workspace_package = self.request_is_workspace_package(request);
        let r = if workspace_package {
            Diagnostic {
                code: "MONORIPPLE_UNRESOLVED_WORKSPACE_IMPORT",
                severity: Severity::Error,
                message,
                path: Some(path.dup()),
                members: Vec::new(),
            }
        } else {
            Diagnostic {
                code: "MONORIPPLE_UNRESOLVED_LOCAL_IMPORT",
                severity: Severity::Warning,
                message,
                path: Some(path.dup()),
                members: Vec::new(),
            }
        };
        assert(models(r.members@) =~= Seq::empty());
        r
    }

    fn report_runtime(&self, path: &FilePath, request: &str, out: &mut Vec<Diagnostic>)
        ensures
            findings_in(final(out)@) == findings_in(old(out)@).union(
                self@.runtime_finding(path@, request@),
            ),
    {
        let ghost start = findings_in(out@);
        if self.resolve(path, request).is_none() && self.request_is_internal(request) {
            let message = join3("cannot resolve runtime module `", request, "`");
            report(out, self.unresolved(path, request, message));
        }
        assert(findings_in(out@) =~= start.union(self@.runtime_finding(path@, request@)));
    }

    fn imports_from(&self, path: &FilePath, m: &ParsedModule, request: &String) -> (r: bool)
        requires
            self@.modules.dom().contains(path@),
            self@.modules[path@] == *m,
        ensures
            r == self@.imports_from(path@, request@),
    {
        let n = m.imports.len();
        let ghost keys = m.imports.keys();
        let mut i: usize = 0;
        while i < n
            invariant
                i <= n,
                n == keys.len(),
                keys == m.imports.keys(),
                self@.modules[path@] == *m,
                m.imports@.dom() == keys.to_set(),
                forall|k: int| 0 <= k < i ==> m.imports@[#[trigger] keys[k]].source@ != request@,
            decreases n - i,
        {
            if m.imports.value_at(i).source == *request {
                assert(self@.modules[path@].imports@[keys[i as int]].source@ == request@);
                return true;
            }
            i += 1;
        }
        proof {
            assert forall|local: Seq<char>| m.imports@.dom().contains(local) implies (
            #[trigger] m.imports@[local]).source@ != request@ by {
                let k = choose|k: int| 0 <= k < keys.len() && keys[k] == local;
                assert(m.imports@[keys[k]].source@ != request@);
            }
        }
        false
    }

    fn report_dynamic(&self, path: &FilePath, m: &ParsedModule, out: &mut Vec<Diagnostic>)
        ensures
            findings_in(final(out)@) == findings_in(old(out)@).union(
                union_over(m.unresolved_dynamic_imports@, self@.dynamic_finding(path@)),
            ),
    {
        let ghost w = self@;
        let ghost start = findings_in(out@);
        let ghost list = m.unresolved_dynamic_imports@;
        let ghost f = w.dynamic_finding(path@);
        let n = m.unresolved_dynamic_imports.len();
        proof {
            union_over_none(list.take(0), f);
            assert(start.union(Set::empty()) =~= start);
        }
        let mut i: usize = 0;
        while i < n
            invariant
                i <= n,
                n == list.len(),
                list == m.unresolved_dynamic_imports@,
                f == w.dynamic_finding(path@),
                findings_in(out@) == start.union(union_over(list.take(i as int), f)),
            decreases n - i,
        {
            let message = join3(
                "dynamic import `",
                m.unresolved_dynamic_imports[i].as_str(),
                "` cannot be resolved to a finite module set",
            );
            let item = Diagnostic {
                code: "MONORIPPLE_DYNAMIC_IMPORT_NON_LITERAL",
                severity: Severity::Warning,
                message,
                path: Some(path.dup()),
                members: Vec::new(),
            };
            assert(models(item.members@) =~= Seq::empty());
            report(out, item);
            proof {
                union_over_next(list, f, i as int);
                assert(findings_in(out@) =~= start.union(union_over(list.take(i + 1), f)));
            }
            i += 1;
        }
        proof {
            union_over_all(list, f, n as int);
        }
    }

    fn report_imports(&self, path: &FilePath, m: &ParsedModule, out: &mut Vec<Diagnostic>)
        requires
            self@.modules.dom().contains(path@),
            self@.modules[path@] == *m,
        ensures
            findings_in(final(out)@) == findings_in(old(out)@).union(
                union_over(m.imports.keys(), self@.import_finding(path@)),
            ),
    {
        let ghost w = self@;
        let ghost start = findings_in(out@);
        let ghost list = m.imports.keys();
        let ghost f = w.import_finding(path@);
        let n = m.imports.len();
        proof {
            union_over_none(list.take(0), f);
            assert(start.union(Set::empty()) =~= start);
        }
        let mut i: usize = 0;
        while i < n
            invariant
                i <= n,
                n == list.len(),
                list == m.imports.keys(),
                w == self@,
                w.modules[path@] == *m,
                f == w.import_finding(path@),
                findings_in(out@) == start.union(union_over(list.take(i as int), f)),
            decreases n - i,
        {
            let local = m.imports.key_at(i);
            let import = m.imports.value_at(i);
            match self.resolve(path, import.source.as_str()) {
                None => if self.request_is_internal(import.source.as_str()) {
                    let message = join3(
                        "cannot resolve imported module `",
                        import.source.as_str(),
                        "`",
                    );
                    report(out, self.unresolved(path, import.source.as_str(), message));
                },
                Some(_) => match &import.imported {
                    ImportedName::Namespace { members: None } => {
                        let message = join3(
                            "namespace import `",
                            local.as_str(),
                            "` uses dynamic access; all exports are dependencies",
                        );
                        let item = Diagnostic {
                            code: "MONORIPPLE_NAMESPACE_DYNAMIC_ACCESS",
                            severity: Severity::Warning,
                            message,
                            path: Some(path.dup()),
                            members: Vec::new(),
                        };
                        assert(models(item.members@) =~= Seq::empty());
                        report(out, item);
                    },
                    _ => {},
                },
            }
            proof {
                union_over_next(list, f, i as int);
                assert(findings_in(out@) =~= start.union(union_over(list.take(i + 1), f)));
            }
            i += 1;
        }
        proof {
            union_over_all(list, f, n as int);
        }
    }

    fn report_requests(&self, path: &FilePath, m: &ParsedModule, out: &mut Vec<Diagnostic>)
        requires
            self@.modules.dom().contains(path@),
            self@.modules[path@] == *m,
        ensures
            findings_in(final(out)@) == findings_in(old(out)@).union(
                union_over(m.module_requests.list(), self@.request_finding(path@)),
            ),
    {
        let ghost w = self@;
        let ghost start = findings_in(out@);
        let ghost list = m.module_requests.list();
        let ghost f = w.request_finding(path@);
        let n = m.module_requests.len();
        proof {
            union_over_none(list.take(0), f);
            assert(start.union(Set::empty()) =~= start);
        }
        let mut i: usize = 0;
        while i < n
            invariant
                i <= n,
                n == list.len(),
                list == m.module_requests.list(),
                w == self@,
                w.modules.dom().contains(path@),
                w.modules[path@] == *m,
                f == w.request_finding(path@),
                findings_in(out@) == start.union(union_over(list.take(i as int), f)),
            decreases n - i,
        {
            let request = m.module_requests.at(i);
            if !self.imports_from(path, m, request) {
                self.report_runtime(path, request.as_str(), out);
            }
            proof {
                union_over_next(list, f, i as int);
                assert(findings_in(out@) =~= start.union(union_over(list.take(i + 1), f)));
            }
            i += 1;
        }
        proof {
            union_over_all(list, f, n as int);
        }
    }

    fn report_loads(&self, path: &FilePath, m: &ParsedModule, out: &mut Vec<Diagnostic>)
        ensures
            findings_in(final(out)@) == findings_in(old(out)@).union(
                union_over(m.runtime_loads@, self@.load_finding(path@)),
            ),
    {
        let ghost w = self@;
        let ghost start = findings_in(out@);
        let ghost list = m.runtime_loads@;
        let ghost f = w.load_finding(path@);
        let n = m.runtime_loads.len();
        proof {
            union_over_none(list.take(0), f);
            assert(start.union(Set::empty()) =~= start);
        }
        let mut i: usize = 0;
        while i < n
            invariant
                i <= n,
                n == list.len(),
                list == m.runtime_loads@,
                w == self@,
                f == w.load_finding(path@),
                findings_in(out@) == start.union(union_over(list.take(i as int), f)),
            decreases n - i,
        {
            self.report_runtime(path, m.runtime_loads[i].source.as_str(), out);
            proof {
                union_over_next(list, f, i as int);
                assert(findings_in(out@) =~= start.union(union_over(list.take(i + 1), f)));
            }
            i += 1;
        }
        proof {
            union_over_all(list, f, n as int);
        }
    }

    /// Reports the findings about one module.
    pub(crate) fn report_module(&self, path: &FilePath, m: &ParsedModule, out: &mut Vec<Diagnostic>)
        requires
            self@.modules.dom().contains(path@),
            self@.modules[path@] == *m,
        ensures
            findings_in(final(out)@) == findings_in(old(out)@).union(self@.findings(path@)),
    {
        let ghost start = findings_in(out@);
        self.report_dynamic(path, m, out);
        self.report_imports(path, m, out);
        self.report_requests(path, m, out);
        self.report_loads(path, m, out);
        assert(findings_in(out@) =~= start.union(self@.findings(path@)));
    }
}

/// The nodes of the named symbols of one file.
pub(crate) fn nodes_in(path: &FilePath, names: &KeySet<String>) -> (r: KeySet<Node>)
    ensures
        r@ == Set::new(|n: NodeModel| n.0 == path@ && names@.contains(n.1)),
{
    let mut out: KeySet<Node> = KeySet::new();
    let ghost list = names.list();
    let n = names.len();
    let mut i: usize = 0;
    while i < n
        invariant
            i <= n,
            n == list.len(),
            list == names.list(),
            forall|x: NodeModel|
                #[trigger] out@.contains(x) <==> x.0 == path@ && list.take(i as int).contains(x.1),
        decreases n - i,
    {
        let ghost before = out@;
        out.insert(Node { file: path.dup(), symbol: names.at(i).clone() });
        proof {
            assert(list.take(i + 1) =~= list.take(i as int).push(list[i as int]));
            push_to_set(list.take(i as int), list[i as int]);
            assert forall|x: NodeModel|
                #[trigger] out@.contains(x) <==> x.0 == path@ && list.take(i + 1).contains(x.1) by {
                assert(list.take(i + 1).contains(x.1) == list.take(i + 1).to_set().contains(x.1));
                assert(list.take(i as int).contains(x.1) == list.take(i as int).to_set().contains(
                    x.1,
                ));
                assert(before.contains(x) == (x.0 == path@ && list.take(i as int).contains(x.1)));
            }
        }
        i += 1;
    }
    proof {
        assert(list.take(n as int) =~= list);
        assert forall|x: NodeModel| out@.contains(x) == (x.0 == path@ && names@.contains(x.1)) by {}
        assert(out@ =~= Set::new(|x: NodeModel| x.0 == path@ && names@.contains(x.1)));
    }
    out
}

} // verus!
