//! Taking in what the TypeScript compiler proved.
use vstd::prelude::*;

use crate::collections::{
    push_to_set, union_over, union_over_all, union_over_next, union_over_none, KeyMap, KeySet,
};
use crate::graph::imports::entry_nodes;
use crate::graph::links::{
    add_edges, adds_keys, edges_in, fan, growing_adds_keys, grows, Edge, EdgeMap,
};
use crate::graph::node::{Node, NodeModel};
use crate::graph::resolve::{normal, normalize_path, Scope, World};
use crate::order::{models, Key};
use crate::parser::{entry_symbol, registry_entry_symbol, ParsedModule, SourceLocation, MODULE_INIT};
use crate::path::FilePath;
use crate::typescript::{TypeScriptFact, TypeScriptFacts, TypeScriptRegistry};

verus! {

impl World {
    /// The registries that the compiler saw being read through an index.
    pub open spec fn compiler_registries(self, list: Seq<TypeScriptRegistry>) -> Set<NodeModel> {
        union_over(
            list,
            |r: TypeScriptRegistry| set![(normal(self.disk, r.file@), r.symbol@)],
        )
    }

    /// The registries behind an indexed dependency of a module that the compiler confirms.
    pub open spec fn confirmed(
        self,
        known: Set<NodeModel>,
        path: Seq<Seq<char>>,
        dependency: Seq<char>,
    ) -> Set<NodeModel> {
        match self.registry_nodes(path, dependency) {
            Some(nodes) => nodes.filter(
                |n: NodeModel| known.contains(n) && self.has_registry(n),
            ),
            None => Set::empty(),
        }
    }

    pub open spec fn confirmed_in(self, known: Set<NodeModel>, path: Seq<Seq<char>>) -> spec_fn(
        Seq<char>,
    ) -> Set<NodeModel> {
        |d: Seq<char>| self.confirmed(known, path, d)
    }

    /// All confirmed registries behind the indexed dependencies of a module.
    pub open spec fn confirmed_of(self, known: Set<NodeModel>) -> spec_fn(Seq<Seq<char>>) -> Set<
        NodeModel,
    > {
        |path: Seq<Seq<char>>|
            union_over(
                self.modules[path].indexed_registry_dependencies.list(),
                self.confirmed_in(known, path),
            )
    }

    pub open spec fn covered_in(self, known: Set<NodeModel>, path: Seq<Seq<char>>) -> spec_fn(
        Seq<char>,
    ) -> Set<Edge> {
        |d: Seq<char>|
            if self.confirmed(known, path, d) == Set::<NodeModel>::empty() {
                Set::empty()
            } else {
                set![((path, MODULE_INIT@), (path, d))]
            }
    }

    /// The edges from the initialisation of a module to confirmed registries: the facts of the
    /// compiler stand in their place.
    pub open spec fn covered_of(self, known: Set<NodeModel>) -> spec_fn(Seq<Seq<char>>) -> Set<Edge> {
        |path: Seq<Seq<char>>|
            union_over(
                self.modules[path].indexed_registry_dependencies.list(),
                self.covered_in(known, path),
            )
    }

    /// The consumer that a fact is about: the named symbol, or the module's initialisation where
    /// it has no such symbol.
    pub open spec fn fact_consumer(self, fact: TypeScriptFact) -> NodeModel {
        let path = normal(self.disk, fact.file@);
        if self.modules[path].symbols@.dom().contains(fact.consumer@) {
            (path, fact.consumer@)
        } else {
            (path, MODULE_INIT@)
        }
    }

    pub open spec fn fact_registry(self, fact: TypeScriptFact) -> NodeModel {
        (normal(self.disk, fact.registry_file@), fact.registry_symbol@)
    }

    /// What a fact says the consumer depends on: the entries it names where the registry has all
    /// of them, else the registry.
    pub open spec fn fact_targets(self, fact: TypeScriptFact) -> Set<NodeModel> {
        let registry = self.fact_registry(fact);
        match fact.keys {
            Some(keys) => if keys@.len() > 0 && forall|i: int|
                0 <= i < keys@.len() ==> self.has_entry(registry, (#[trigger] keys@[i])@) {
                entry_nodes(set![registry], models(keys@).to_set())
            } else {
                set![registry]
            },
            None => set![registry],
        }
    }

    /// A fact about a confirmed registry and a known module.
    pub open spec fn fact_counts(self, indexed: Set<NodeModel>, fact: TypeScriptFact) -> bool {
        indexed.contains(self.fact_registry(fact)) && self.modules.dom().contains(
            normal(self.disk, fact.file@),
        )
    }

    pub open spec fn fact_edges(self, indexed: Set<NodeModel>) -> spec_fn(TypeScriptFact) -> Set<Edge> {
        |fact: TypeScriptFact|
            if self.fact_counts(indexed, fact) {
                fan(self.fact_consumer(fact), self.fact_targets(fact))
            } else {
                Set::empty()
            }
    }

    /// The places of the edges that facts justify, after the first `n` facts.
    pub open spec fn fact_places(
        self,
        indexed: Set<NodeModel>,
        facts: Seq<TypeScriptFact>,
        n: int,
        start: Map<Edge, SourceLocation>,
    ) -> Map<Edge, SourceLocation>
        decreases n,
    {
        if n <= 0 {
            start
        } else {
            let before = self.fact_places(indexed, facts, n - 1, start);
            let fact = facts[n - 1];
            if self.fact_counts(indexed, fact) {
                before.union_prefer_right(
                    Map::new(
                        |e: Edge|
                            e.0 == self.fact_consumer(fact) && self.fact_targets(fact).contains(e.1),
                        |e: Edge| (SourceLocation { line: fact.line, column: fact.column }),
                    ),
                )
            } else {
                before
            }
        }
    }
}

impl<'a> Scope<'a> {
    fn compiler_registries(&self, list: &Vec<TypeScriptRegistry>) -> (r: KeySet<Node>)
        ensures
            r@ == self@.compiler_registries(list@),
    {
        let ghost f = |r: TypeScriptRegistry| set![(normal(self@.disk, r.file@), r.symbol@)];
        let mut out: KeySet<Node> = KeySet::new();
        let mut i: usize = 0;
        proof {
            union_over_none(list@.take(0), f);
        }
        while i < list.len()
            invariant
                i <= list.len(),
                f == (|r: TypeScriptRegistry| set![(normal(self@.disk, r.file@), r.symbol@)]),
                out@ == union_over(list@.take(i as int), f),
            decreases list.len() - i,
        {
            let item = &list[i];
            let ghost before = out@;
            out.insert(
                Node { file: normalize_path(self.disk, &item.file), symbol: item.symbol.clone() },
            );
            proof {
                union_over_next(list@, f, i as int);
                assert(out@ =~= union_over(list@.take(i + 1), f));
            }
            i += 1;
        }
        proof {
            union_over_all(list@, f, i as int);
        }
        out
    }

    fn confirmed(&self, known: &KeySet<Node>, path: &FilePath, dependency: &String) -> (r: KeySet<Node>)
        ensures
            r@ == self@.confirmed(known@, path@, dependency@),
    {
        let mut out: KeySet<Node> = KeySet::new();
        match self.resolve_registry_nodes(path, dependency) {
            Some(nodes) => {
                let ghost keep = |n: NodeModel| known@.contains(n) && self@.has_registry(n);
                let ghost list = nodes.list();
                let n = nodes.len();
                let mut i: usize = 0;
                assert(out@ =~= list.take(0).to_set().filter(keep));
                while i < n
                    invariant
                        i <= n,
                        n == list.len(),
                        list == nodes.list(),
                        keep == (|n: NodeModel| known@.contains(n) && self@.has_registry(n)),
                        out@ == list.take(i as int).to_set().filter(keep),
                    decreases n - i,
                {
                    let node = nodes.at(i);
                    let is_registry = match self.modules.get(&node.file) {
                        Some(m) => m.registries.contains_key(&node.symbol),
                        None => false,
                    };
                    if known.contains(node) && is_registry {
                        out.insert(node.dup());
                    }
                    proof {
                        assert(list.take(i + 1) =~= list.take(i as int).push(list[i as int]));
                        push_to_set(list.take(i as int), list[i as int]);
                        assert(out@ =~= list.take(i + 1).to_set().filter(keep));
                    }
                    i += 1;
                }
                assert(list.take(n as int) =~= list);
            },
            None => {},
        }
        out
    }

    /// Collects the confirmed registries of one module and drops the edges they cover.
    fn cover_module(
        &self,
        known: &KeySet<Node>,
        path: &FilePath,
        m: &ParsedModule,
        indexed: &mut KeySet<Node>,
        edges: &mut EdgeMap,
    )
        requires
            self@.modules.dom().contains(path@),
            self@.modules[path@] == *m,
        ensures
            final(indexed)@ == old(indexed)@.union((self@.confirmed_of(known@))(path@)),
            final(edges)@.dom() == old(edges)@.dom(),
            edges_in(*final(edges)) == edges_in(*old(edges)).difference(
                (self@.covered_of(known@))(path@),
            ),
    {
        let ghost w = self@;
        let ghost list = m.indexed_registry_dependencies.list();
        let ghost f = w.confirmed_in(known@, path@);
        let ghost g = w.covered_in(known@, path@);
        let ghost found0 = indexed@;
        let ghost edges0 = edges_in(*edges);
        let n = m.indexed_registry_dependencies.len();
        let mut i: usize = 0;
        proof {
            union_over_none(list.take(0), f);
            union_over_none(list.take(0), g);
            assert(found0.union(Set::empty()) =~= found0);
            assert(edges0.difference(Set::empty()) =~= edges0);
        }
        while i < n
            invariant
                i <= n,
                n == list.len(),
                list == m.indexed_registry_dependencies.list(),
                w == self@,
                f == w.confirmed_in(known@, path@),
                g == w.covered_in(known@, path@),
                indexed@ == found0.union(union_over(list.take(i as int), f)),
                edges@.dom() == old(edges)@.dom(),
                edges_in(*edges) == edges0.difference(union_over(list.take(i as int), g)),
            decreases n - i,
        {
            let dependency = m.indexed_registry_dependencies.at(i);
            let found = self.confirmed(known, path, dependency);
            if found.len() > 0 {
                indexed.extend(&found);
                edges.unlink(
                    &Node { file: path.dup(), symbol: MODULE_INIT.to_owned() },
                    &Node { file: path.dup(), symbol: dependency.clone() },
                );
            }
            proof {
                union_over_next(list, f, i as int);
                union_over_next(list, g, i as int);
                assert(indexed@ =~= found0.union(union_over(list.take(i + 1), f)));
                assert(edges_in(*edges) =~= edges0.difference(union_over(list.take(i + 1), g)));
            }
            i += 1;
        }
        proof {
            union_over_all(list, f, n as int);
            union_over_all(list, g, n as int);
        }
    }

    fn cover(&self, known: &KeySet<Node>, edges: &mut EdgeMap) -> (indexed: KeySet<Node>)
        ensures
            indexed@ == union_over(self.modules.keys(), self@.confirmed_of(known@)),
            final(edges)@.dom() == old(edges)@.dom(),
            edges_in(*final(edges)) == edges_in(*old(edges)).difference(
                union_over(self.modules.keys(), self@.covered_of(known@)),
            ),
    {
        let ghost w = self@;
        let ghost keys = self.modules.keys();
        let ghost f = w.confirmed_of(known@);
        let ghost g = w.covered_of(known@);
        let ghost edges0 = edges_in(*edges);
        let mut indexed: KeySet<Node> = KeySet::new();
        let n = self.modules.len();
        let mut i: usize = 0;
        proof {
            union_over_none(keys.take(0), f);
            union_over_none(keys.take(0), g);
            assert(edges0.difference(Set::empty()) =~= edges0);
        }
        while i < n
            invariant
                i <= n,
                n == keys.len(),
                keys == self.modules.keys(),
                w == self@,
                f == w.confirmed_of(known@),
                g == w.covered_of(known@),
                indexed@ == union_over(keys.take(i as int), f),
                edges@.dom() == old(edges)@.dom(),
                edges_in(*edges) == edges0.difference(union_over(keys.take(i as int), g)),
            decreases n - i,
        {
            let path = self.modules.key_at(i);
            let m = self.modules.value_at(i);
            self.cover_module(known, path, m, &mut indexed, edges);
            proof {
                union_over_next(keys, f, i as int);
                union_over_next(keys, g, i as int);
                assert(edges_in(*edges) =~= edges0.difference(union_over(keys.take(i + 1), g)));
            }
            i += 1;
        }
        proof {
            union_over_all(keys, f, n as int);
            union_over_all(keys, g, n as int);
        }
        indexed
    }

    fn fact_targets(&self, fact: &TypeScriptFact, registry: &Node) -> (r: KeySet<Node>)
        requires
            registry@ == self@.fact_registry(*fact),
        ensures
            r@ == self@.fact_targets(*fact),
    {
        let mut out: KeySet<Node> = KeySet::new();
        match &fact.keys {
            Some(keys) => {
                let ghost ks = models(keys@);
                let mut known: bool = keys.len() > 0;
                let mut i: usize = 0;
                while i < keys.len()
                    invariant
                        i <= keys.len(),
                        ks == models(keys@),
                        registry@ == self@.fact_registry(*fact),
                        fact.keys == Some(*keys),
                        known == (keys@.len() > 0 && forall|k: int|
                            0 <= k < i ==> self@.has_entry(registry@, (#[trigger] keys@[k])@)),
                    decreases keys.len() - i,
                {
                    if !self.has_entry(registry, &keys[i]) {
                        known = false;
                    }
                    i += 1;
                }
                if known {
                    let mut k: usize = 0;
                    while k < keys.len()
                        invariant
                            k <= keys.len(),
                            ks == models(keys@),
                            forall|n: NodeModel|
                                #[trigger] out@.contains(n) <==> exists|j: int|
                                    0 <= j < k && n == (
                                        registry@.0,
                                        entry_symbol(registry@.1, #[trigger] ks[j]),
                                    ),
                        decreases keys.len() - k,
                    {
                        let ghost before = out@;
                        let item = Node {
                            file: registry.file.dup(),
                            symbol: registry_entry_symbol(registry.symbol.as_str(), keys[k].as_str()),
                        };
                        let ghost added = item@;
                        out.insert(item);
                        proof {
                            assert(added == (registry@.0, entry_symbol(registry@.1, ks[k as int])));
                            assert forall|n: NodeModel|
                                #[trigger] out@.contains(n) <==> exists|j: int|
                                    0 <= j < k + 1 && n == (
                                        registry@.0,
                                        entry_symbol(registry@.1, #[trigger] ks[j]),
                                    ) by {
                                assert(out@.contains(n) == (before.contains(n) || n == added));
                            }
                        }
                        k += 1;
                    }
                    proof {
                        let goal = entry_nodes(set![registry@], ks.to_set());
                        assert forall|n: NodeModel| out@.contains(n) == goal.contains(n) by {
                            if out@.contains(n) {
                                let j = choose|j: int|
                                    0 <= j < ks.len() && n == (
                                        registry@.0,
                                        entry_symbol(registry@.1, #[trigger] ks[j]),
                                    );
                                assert(ks.contains(ks[j]));
                                assert(ks.to_set().contains(ks[j]));
                                assert(set![registry@].contains(registry@));
                                assert(n == (registry@.0, entry_symbol(registry@.1, ks[j])));
                            }
                            if goal.contains(n) {
                                let (r, key) = choose|r: NodeModel, key: Seq<char>|
                                    set![registry@].contains(r) && ks.to_set().contains(key) && n == (
                                        r.0,
                                        #[trigger] entry_symbol(r.1, key),
                                    );
                                let j = choose|j: int| 0 <= j < ks.len() && ks[j] == key;
                                assert(n == (registry@.0, entry_symbol(registry@.1, ks[j])));
                            }
                        }
                        assert(out@ =~= goal);
                    }
                    return out;
                }
            },
            None => {},
        }
        out.insert(registry.dup());
        assert(out@ =~= set![registry@]);
        out
    }

    fn place_edges(
        consumer: &Node,
        targets: &KeySet<Node>,
        location: SourceLocation,
        typed: &mut KeyMap<(Node, Node), SourceLocation>,
    )
        ensures
            final(typed)@ == old(typed)@.union_prefer_right(
                Map::new(
                    |e: Edge| e.0 == consumer@ && targets@.contains(e.1),
                    |e: Edge| location,
                ),
            ),
    {
        let ghost start = typed@;
        let ghost list = targets.list();
        let n = targets.len();
        let mut i: usize = 0;
        let ghost empty = Map::new(
            |e: Edge| e.0 == consumer@ && list.take(0).contains(e.1),
            |e: Edge| location,
        );
        assert(start =~= start.union_prefer_right(empty));
        while i < n
            invariant
                i <= n,
                n == list.len(),
                list == targets.list(),
                typed@ == start.union_prefer_right(
                    Map::new(
                        |e: Edge| e.0 == consumer@ && list.take(i as int).contains(e.1),
                        |e: Edge| location,
                    ),
                ),
            decreases n - i,
        {
            let target = targets.at(i);
            let ghost before = typed@;
            typed.insert((consumer.dup(), target.dup()), location);
            proof {
                let longer = list.take(i + 1);
                let shorter = list.take(i as int);
                assert(longer =~= shorter.push(list[i as int]));
                push_to_set(shorter, list[i as int]);
                assert forall|x: NodeModel| #[trigger] longer.contains(x) == (shorter.contains(x) || x
                    == list[i as int]) by {
                    assert(longer.contains(x) == longer.to_set().contains(x));
                    assert(shorter.contains(x) == shorter.to_set().contains(x));
                }
                let goal = start.union_prefer_right(
                    Map::new(
                        |e: Edge| e.0 == consumer@ && longer.contains(e.1),
                        |e: Edge| location,
                    ),
                );
                assert(typed@ =~= goal);
            }
            i += 1;
        }
        proof {
            assert(list.take(n as int) =~= list);
            let a = Map::new(
                |e: Edge| e.0 == consumer@ && list.take(n as int).contains(e.1),
                |e: Edge| location,
            );
            let b = Map::new(|e: Edge| e.0 == consumer@ && targets@.contains(e.1), |e: Edge| location);
            assert(a =~= b);
        }
    }

    /// Takes in the facts of the compiler.
    pub(crate) fn apply_facts(
        &self,
        facts: &TypeScriptFacts,
        edges: &mut EdgeMap,
        typed: &mut KeyMap<(Node, Node), SourceLocation>,
    )
        ensures
            adds_keys(*old(edges), *final(edges)),
            ({
                let w = self@;
                let known = w.compiler_registries(facts.indexed_registries@);
                let indexed = union_over(self.modules.keys(), w.confirmed_of(known));
                let covered = union_over(self.modules.keys(), w.covered_of(known));
                &&& edges_in(*final(edges)) == edges_in(*old(edges)).difference(covered).union(
                    union_over(facts.facts@, w.fact_edges(indexed)),
                )
                &&& final(typed)@ == w.fact_places(
                    indexed,
                    facts.facts@,
                    facts.facts@.len() as int,
                    old(typed)@,
                )
            }),
    {
        let ghost w = self@;
        let known = self.compiler_registries(&facts.indexed_registries);
        let indexed = self.cover(&known, edges);
        let ghost left = *edges;
        let ghost f = w.fact_edges(indexed@);
        let ghost start = edges_in(*edges);
        let ghost places = typed@;
        let list = &facts.facts;
        let mut i: usize = 0;
        proof {
            union_over_none(list@.take(0), f);
            assert(start.union(Set::empty()) =~= start);
        }
        while i < list.len()
            invariant
                i <= list.len(),
                list@ == facts.facts@,
                w == self@,
                f == w.fact_edges(indexed@),
                grows(left, *edges),
                edges_in(*edges) == start.union(union_over(list@.take(i as int), f)),
                typed@ == w.fact_places(indexed@, list@, i as int, places),
            decreases list.len() - i,
        {
            let fact = &list[i];
            let registry = Node {
                file: normalize_path(self.disk, &fact.registry_file),
                symbol: fact.registry_symbol.clone(),
            };
            let ghost seen = edges_in(*edges);
            if indexed.contains(&registry) {
                let file = normalize_path(self.disk, &fact.file);
                match self.modules.get(&file) {
                    Some(m) => {
                        let symbol = if m.symbols.contains_key(&fact.consumer) {
                            fact.consumer.clone()
                        } else {
                            MODULE_INIT.to_owned()
                        };
                        let consumer = Node { file, symbol };
                        let targets = self.fact_targets(fact, &registry);
                        let location = SourceLocation { line: fact.line, column: fact.column };
                        Self::place_edges(&consumer, &targets, location, typed);
                        add_edges(edges, &consumer, &targets);
                    },
                    None => {},
                }
            }
            proof {
                union_over_next(list@, f, i as int);
                assert(edges_in(*edges) =~= start.union(union_over(list@.take(i + 1), f)));
            }
            i += 1;
        }
        proof {
            union_over_all(list@, f, i as int);
            growing_adds_keys(left, *edges);
        }
    }
}

} // verus!
