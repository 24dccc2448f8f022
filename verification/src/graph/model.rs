//! The dependency graph.
use vstd::prelude::*;

use crate::collections::{
    ascending, push_to_set, union_over, union_over_all, union_over_next, union_over_none,
    KeyMap, KeySet,
};
use crate::diagnostics::Diagnostic;
use crate::graph::explain::{reason_for, EdgeExplanation};
use crate::graph::findings::{settle, settled};
use crate::graph::links::{
    add_edge, adds_keys, consumers, edges_in, fan, findings_in, growing_adds_keys, grows, Edge,
    EdgeMap, Finding,
};
use crate::graph::moving::is_relocated;
use crate::graph::node::{Node, NodeModel};
use crate::graph::paths::{explored_has_chains, path_models, path_to, paths_to, reason_paths};
use crate::graph::reach::{consumed_by, explore, Reachability};
use crate::graph::remap::{
    remap_edges, remap_findings, remap_modules, remap_packages, remap_typed,
};
use crate::graph::resolve::{
    members, normal, normalize_path, DiskFacts, Scope, WorkspacePackage, World,
};
use crate::graph::targets::{
    add_target, drop_virtual, node_of_target, target_models, target_of, with_target,
    without_virtual, TargetNode,
};
use crate::order::{models, Key};
use crate::parser::{ParsedModule, SourceLocation};
use crate::path::FilePath;
use crate::text::same;
use crate::typescript::TypeScriptFacts;
use crate::workspace::{Package, Target};

verus! {

/// How many modules came from the cache and how many had to be parsed.
#[derive(Clone, Copy, Debug, PartialEq, Eq, Structural)]
pub struct CacheStats {
    pub local_hits: usize,
    pub misses: usize,
}

/// The modules of a workspace and how their symbols depend on each other.
pub struct DependencyGraph {
    pub modules: KeyMap<FilePath, ParsedModule>,
    pub edges: EdgeMap,
    pub type_edges: EdgeMap,
    pub targets: Vec<TargetNode>,
    pub diagnostics: Vec<Diagnostic>,
    pub cache_stats: CacheStats,
    pub typed_registry_edges: KeyMap<(Node, Node), SourceLocation>,
    pub disk: DiskFacts,
    pub workspace_packages: Vec<WorkspacePackage>,
}

/// A package with its paths in canonical form.
pub open spec fn is_canonical(disk: DiskFacts, a: Package, b: WorkspacePackage) -> bool {
    &&& b.name@ == a.name@
    &&& b.dir@ == normal(disk, a.dir@)
    &&& b.entrypoint.model() == match a.entrypoint.model() {
        Some(p) => Some(normal(disk, p)),
        None => None,
    }
    &&& b.exports@.dom() == a.exports@.dom()
    &&& forall|k: Seq<char>|
        a.exports@.dom().contains(k) ==> (#[trigger] b.exports@[k])@ == normal(disk, a.exports@[k]@)
}

/// All packages in canonical form.
pub open spec fn are_canonical(
    disk: DiskFacts,
    packages: Seq<Package>,
    list: Seq<WorkspacePackage>,
) -> bool {
    &&& list.len() == packages.len()
    &&& forall|i: int|
        0 <= i < packages.len() ==> is_canonical(disk, packages[i], #[trigger] list[i])
}

fn canonical_exports(disk: &DiskFacts, exports: &KeyMap<String, FilePath>) -> (r: KeyMap<
    String,
    FilePath,
>)
    ensures
        r@.dom() == exports@.dom(),
        forall|k: Seq<char>|
            exports@.dom().contains(k) ==> (#[trigger] r@[k])@ == normal(*disk, exports@[k]@),
{
    let ghost keys = exports.keys();
    let n = exports.len();
    let mut out: KeyMap<String, FilePath> = KeyMap::new();
    let mut i: usize = 0;
    while i < n
        invariant
            i <= n,
            n == keys.len(),
            keys == exports.keys(),
            out@.dom() =~= keys.take(i as int).to_set(),
            forall|k: Seq<char>|
                out@.dom().contains(k) ==> (#[trigger] out@[k])@ == normal(*disk, exports@[k]@),
        decreases n - i,
    {
        out.insert(exports.key_at(i).clone(), normalize_path(disk, exports.value_at(i)));
        proof {
            assert(keys.take(i + 1) =~= keys.take(i as int).push(keys[i as int]));
            push_to_set(keys.take(i as int), keys[i as int]);
        }
        i += 1;
    }
    assert(keys.take(n as int) =~= keys);
    out
}

fn canonical_packages(disk: &DiskFacts, packages: &Vec<Package>) -> (r: Vec<WorkspacePackage>)
    ensures
        are_canonical(*disk, packages@, r@),
{
    let mut out: Vec<WorkspacePackage> = Vec::new();
    let mut i: usize = 0;
    while i < packages.len()
        invariant
            i <= packages.len(),
            out.len() == i,
            forall|k: int| 0 <= k < i ==> is_canonical(*disk, packages@[k], #[trigger] out@[k]),
        decreases packages.len() - i,
    {
        let p = &packages[i];
        let item = WorkspacePackage {
            name: p.name.clone(),
            dir: normalize_path(disk, &p.dir),
            entrypoint: match &p.entrypoint {
                Some(path) => Some(normalize_path(disk, path)),
                None => None,
            },
            exports: canonical_exports(disk, &p.exports),
        };
        out.push(item);
        i += 1;
    }
    out
}

impl DependencyGraph {
    /// What resolving requests in this graph depends on.
    pub open spec fn world(self) -> World {
        World {
            modules: self.modules@,
            packages: members(self.workspace_packages@),
            disk: self.disk,
        }
    }

    /// The run-time edges that the modules contribute.
    pub open spec fn module_edges(self) -> Set<Edge> {
        union_over(self.modules.keys(), |p: Seq<Seq<char>>| self.world().runtime_edges(p))
    }

    /// The type edges that the modules contribute.
    pub open spec fn module_type_edges(self) -> Set<Edge> {
        union_over(self.modules.keys(), |p: Seq<Seq<char>>| self.world().type_edges(p))
    }

    /// The findings about the modules.
    pub open spec fn module_findings(self) -> Set<Finding> {
        union_over(self.modules.keys(), |p: Seq<Seq<char>>| self.world().findings(p))
    }

    /// This graph links `targets` and `packages` completely: it has the edges of its modules and
    /// of the targets, and the findings about them and about the whole.
    pub open spec fn is_linked(self, targets: Seq<Target>, packages: Seq<Package>) -> bool {
        let w = self.world();
        &&& are_canonical(self.disk, packages, self.workspace_packages@)
        &&& edges_in(self.edges) == self.module_edges().union(union_over(targets, w.target_edges()))
        &&& edges_in(self.type_edges) == self.module_type_edges()
        &&& self.edges@.dom() == consumers(edges_in(self.edges))
        &&& self.type_edges@.dom() == consumers(edges_in(self.type_edges))
        &&& self.typed_registry_edges@ == Map::<Edge, SourceLocation>::empty()
        &&& ascending::<Diagnostic>(models(self.diagnostics@))
        &&& exists|found: Seq<Finding>|
            {
                &&& found.to_set() == self.module_findings()
                &&& target_models(self.targets@) == (#[trigger] w.declared(
                    targets,
                    targets.len() as int,
                    Seq::empty(),
                    found,
                )).0
                &&& findings_in(self.diagnostics@) == settled(
                    w.declared(targets, targets.len() as int, Seq::empty(), found).1.to_set(),
                    packages,
                    edges_in(self.edges),
                    target_models(self.targets@),
                )
            }
    }

    /// Links modules, targets and packages.
    pub fn link(
        modules: KeyMap<FilePath, ParsedModule>,
        cache_stats: CacheStats,
        targets: &Vec<Target>,
        packages: &Vec<Package>,
        disk: DiskFacts,
    ) -> (r: DependencyGraph)
        ensures
            r.modules == modules,
            r.cache_stats == cache_stats,
            r.disk == disk,
            r.is_linked(targets@, packages@),
    {
        let workspace_packages = canonical_packages(&disk, packages);
        let mut edges: EdgeMap = KeyMap::new();
        let mut type_edges: EdgeMap = KeyMap::new();
        let ghost none = edges;
        let ghost no_types = type_edges;
        let mut list: Vec<TargetNode> = Vec::new();
        let mut found: Vec<Diagnostic> = Vec::new();
        let scope = Scope { modules: &modules, packages: &workspace_packages, disk: &disk };
        let ghost w = scope@;
        let ghost keys = modules.keys();
        let ghost f = |p: Seq<Seq<char>>| w.runtime_edges(p);
        let ghost g = |p: Seq<Seq<char>>| w.type_edges(p);
        let ghost h = |p: Seq<Seq<char>>| w.findings(p);
        let n = modules.len();
        let mut i: usize = 0;
        proof {
            union_over_none(keys.take(0), f);
            union_over_none(keys.take(0), g);
            union_over_none(keys.take(0), h);
            assert(edges_in(edges) =~= Set::empty());
            assert(edges_in(type_edges) =~= Set::empty());
            assert(findings_in(found@) =~= Set::empty());
        }
        while i < n
            invariant
                i <= n,
                n == keys.len(),
                keys == modules.keys(),
                w == scope@,
                scope.modules == modules,
                f == (|p: Seq<Seq<char>>| w.runtime_edges(p)),
                g == (|p: Seq<Seq<char>>| w.type_edges(p)),
                h == (|p: Seq<Seq<char>>| w.findings(p)),
                grows(none, edges),
                grows(no_types, type_edges),
                edges_in(edges) == union_over(keys.take(i as int), f),
                edges_in(type_edges) == union_over(keys.take(i as int), g),
                findings_in(found@) == union_over(keys.take(i as int), h),
            decreases n - i,
        {
            let path = modules.key_at(i);
            let m = modules.value_at(i);
            scope.link_module(path, m, &mut edges, &mut type_edges);
            scope.report_module(path, m, &mut found);
            proof {
                union_over_next(keys, f, i as int);
                union_over_next(keys, g, i as int);
                union_over_next(keys, h, i as int);
            }
            i += 1;
        }
        proof {
            union_over_all(keys, f, n as int);
            union_over_all(keys, g, n as int);
            union_over_all(keys, h, n as int);
        }
        let ghost first = models(found@);
        assert(target_models(list@) =~= Seq::empty());
        scope.link_targets(targets, &mut edges, &mut list, &mut found);
        settle(&edges, &list, packages, &mut found);
        proof {
            growing_adds_keys(none, edges);
            growing_adds_keys(no_types, type_edges);
            assert(edges@.dom() =~= consumers(edges_in(edges)));
            assert(type_edges@.dom() =~= consumers(edges_in(type_edges)));
        }
        let r = DependencyGraph {
            modules,
            edges,
            type_edges,
            targets: list,
            diagnostics: found,
            cache_stats,
            typed_registry_edges: KeyMap::new(),
            disk,
            workspace_packages,
        };
        proof {
            assert(r.world() == w);
            let last = w.declared(targets@, targets@.len() as int, Seq::empty(), first);
            assert(target_models(r.targets@) == last.0);
        }
        r
    }

    /// What a change of `seeds` reaches at run time.
    pub fn affected(&self, seeds: &KeySet<Node>) -> (r: Reachability)
        ensures
            r.seeds@ == seeds@,
            r.seeds.list() == seeds.list(),
            r.explores(consumed_by(edges_in(self.edges))),
            r.has_chains(),
    {
        let r = explore(&self.edges, None, seeds);
        proof {
            explored_has_chains(r, consumed_by(edges_in(self.edges)));
        }
        r
    }

    /// What a change of `seeds` reaches when types count too.
    pub fn affected_typecheck(&self, seeds: &KeySet<Node>) -> (r: Reachability)
        ensures
            r.seeds@ == seeds@,
            r.seeds.list() == seeds.list(),
            r.explores(consumed_by(edges_in(self.edges).union(edges_in(self.type_edges)))),
            r.has_chains(),
    {
        let r = explore(&self.edges, Some(&self.type_edges), seeds);
        proof {
            explored_has_chains(
                r,
                consumed_by(edges_in(self.edges).union(edges_in(self.type_edges))),
            );
        }
        r
    }

    /// The chain along which `target` was first reached.
    pub fn path_to(&self, reachability: &Reachability, target: &Node) -> (r: Option<Vec<Node>>)
        ensures
            match r {
                Some(path) => reachability.seed_for@.dom().contains(target@)
                    && reachability.is_trace(models(path@), target@),
                None => !reachability.has_trace(target@),
            },
    {
        path_to(reachability, target)
    }

    /// Up to `limit` chains to `target`.
    pub fn paths_to(&self, reachability: &Reachability, target: &Node, limit: usize) -> (r: Vec<
        Vec<Node>,
    >)
        ensures
            path_models(r@) == reason_paths(*reachability, target@, limit),
    {
        paths_to(reachability, target, limit)
    }

    /// Says why `consumer` depends on `dependency`.
    pub fn edge_explanation(&self, consumer: &Node, dependency: &Node, type_only: bool) -> (r: EdgeExplanation)
        ensures
            r@ == reason_for(
                self.world(),
                self.typed_registry_edges@,
                consumer@,
                dependency@,
                type_only,
            ),
    {
        let scope = Scope {
            modules: &self.modules,
            packages: &self.workspace_packages,
            disk: &self.disk,
        };
        scope.explain(&self.typed_registry_edges, consumer, dependency, type_only)
    }

    /// The node of a deployment target.
    pub fn target_node(package: &str) -> (r: Node)
        ensures
            r@ == target_of(package@),
    {
        node_of_target(package)
    }

    /// The parts of the graph that adding edges and targets leaves alone.
    pub open spec fn same_modules(self, other: DependencyGraph) -> bool {
        &&& self.modules == other.modules
        &&& self.cache_stats == other.cache_stats
        &&& self.disk == other.disk
        &&& self.workspace_packages == other.workspace_packages
    }

    /// Adds an edge that did not come from a module.
    pub fn add_external_edge(&mut self, consumer: Node, dependency: Node, type_only: bool)
        ensures
            final(self).same_modules(*old(self)),
            final(self).targets == old(self).targets,
            final(self).diagnostics == old(self).diagnostics,
            final(self).typed_registry_edges == old(self).typed_registry_edges,
            type_only ==> final(self).edges == old(self).edges && edges_in(final(self).type_edges)
                == edges_in(old(self).type_edges).union(fan(consumer@, set![dependency@])),
            !type_only ==> final(self).type_edges == old(self).type_edges && edges_in(
                final(self).edges,
            ) == edges_in(old(self).edges).union(fan(consumer@, set![dependency@])),
            adds_keys(old(self).edges, final(self).edges),
            adds_keys(old(self).type_edges, final(self).type_edges),
    {
        let ghost before = (self.edges, self.type_edges);
        if type_only {
            add_edge(&mut self.type_edges, consumer, dependency);
        } else {
            add_edge(&mut self.edges, consumer, dependency);
        }
        proof {
            growing_adds_keys(before.0, self.edges);
            growing_adds_keys(before.1, self.type_edges);
        }
    }

    /// Adds roots to a target.
    pub fn add_target_roots(&mut self, package: &str, roots: &Vec<FilePath>)
        ensures
            final(self).same_modules(*old(self)),
            final(self).type_edges == old(self).type_edges,
            final(self).typed_registry_edges == old(self).typed_registry_edges,
            edges_in(final(self).edges) == edges_in(old(self).edges).union(
                union_over(roots@, old(self).world().root_edges(package@)),
            ),
            adds_keys(old(self).edges, final(self).edges),
            target_models(final(self).targets@) == with_target(
                target_models(old(self).targets@),
                package@,
            ),
            models(final(self).diagnostics@) == without_virtual(
                models(old(self).diagnostics@),
                package@,
            ),
    {
        let scope = Scope {
            modules: &self.modules,
            packages: &self.workspace_packages,
            disk: &self.disk,
        };
        let ghost before = self.edges;
        scope.add_roots(package, roots, &mut self.edges);
        proof {
            growing_adds_keys(before, self.edges);
        }
        add_target(&mut self.targets, package);
        self.diagnostics = drop_virtual(&self.diagnostics, package);
    }

    /// Adds a target without roots.
    pub fn add_external_target(&mut self, package: &str)
        ensures
            final(self).same_modules(*old(self)),
            final(self).edges == old(self).edges,
            final(self).type_edges == old(self).type_edges,
            final(self).typed_registry_edges == old(self).typed_registry_edges,
            target_models(final(self).targets@) == with_target(
                target_models(old(self).targets@),
                package@,
            ),
            models(final(self).diagnostics@) == without_virtual(
                models(old(self).diagnostics@),
                package@,
            ),
    {
        add_target(&mut self.targets, package);
        self.diagnostics = drop_virtual(&self.diagnostics, package);
    }

    /// Brings the findings about cycles up to date after edges or targets were added.
    pub fn refresh_graph_diagnostics(&mut self, packages: &Vec<Package>)
        ensures
            final(self).same_modules(*old(self)),
            final(self).edges == old(self).edges,
            final(self).type_edges == old(self).type_edges,
            final(self).typed_registry_edges == old(self).typed_registry_edges,
            final(self).targets == old(self).targets,
            ascending::<Diagnostic>(models(final(self).diagnostics@)),
            findings_in(final(self).diagnostics@) == settled(
                findings_in(old(self).diagnostics@).filter(|d: Finding| !is_cycle_finding(d)),
                packages@,
                edges_in(old(self).edges),
                target_models(old(self).targets@),
            ),
    {
        let mut found = without_cycles(&self.diagnostics);
        settle(&self.edges, &self.targets, packages, &mut found);
        self.diagnostics = found;
    }

    /// Takes over the edges of another graph.
    pub fn merge_edges_from(&mut self, other: &DependencyGraph)
        ensures
            final(self).same_modules(*old(self)),
            final(self).targets == old(self).targets,
            final(self).diagnostics == old(self).diagnostics,
            edges_in(final(self).edges) == edges_in(old(self).edges).union(edges_in(other.edges)),
            edges_in(final(self).type_edges) == edges_in(old(self).type_edges).union(
                edges_in(other.type_edges),
            ),
            final(self).edges@.dom() == old(self).edges@.dom().union(other.edges@.dom()),
            final(self).type_edges@.dom() == old(self).type_edges@.dom().union(
                other.type_edges@.dom(),
            ),
            final(self).typed_registry_edges@ == old(self).typed_registry_edges@.union_prefer_right(
                other.typed_registry_edges@,
            ),
    {
        merge_edges(&mut self.edges, &other.edges);
        merge_edges(&mut self.type_edges, &other.type_edges);
        merge_places(&mut self.typed_registry_edges, &other.typed_registry_edges);
    }

    /// Takes in what the TypeScript compiler proved.
    pub fn apply_typescript_facts(&mut self, facts: &TypeScriptFacts)
        ensures
            final(self).same_modules(*old(self)),
            final(self).targets == old(self).targets,
            final(self).diagnostics == old(self).diagnostics,
            final(self).type_edges == old(self).type_edges,
            adds_keys(old(self).edges, final(self).edges),
            ({
                let w = old(self).world();
                let keys = old(self).modules.keys();
                let known = w.compiler_registries(facts.indexed_registries@);
                let indexed = union_over(keys, w.confirmed_of(known));
                let covered = union_over(keys, w.covered_of(known));
                &&& edges_in(final(self).edges) == edges_in(old(self).edges).difference(
                    covered,
                ).union(union_over(facts.facts@, w.fact_edges(indexed)))
                &&& final(self).typed_registry_edges@ == w.fact_places(
                    indexed,
                    facts.facts@,
                    facts.facts@.len() as int,
                    old(self).typed_registry_edges@,
                )
            }),
    {
        let scope = Scope {
            modules: &self.modules,
            packages: &self.workspace_packages,
            disk: &self.disk,
        };
        scope.apply_facts(facts, &mut self.edges, &mut self.typed_registry_edges);
    }

    /// Moves the files of the graph from one directory to another.
    pub fn remap_root(&mut self, from: &FilePath, to: &FilePath)
        ensures
            is_relocated(
                *old(self),
                *final(self),
                normal(old(self).disk, from@),
                normal(old(self).disk, to@),
            ),
    {
        let a = normalize_path(&self.disk, from);
        let b = normalize_path(&self.disk, to);
        let mut modules: KeyMap<FilePath, ParsedModule> = KeyMap::new();
        std::mem::swap(&mut modules, &mut self.modules);
        self.modules = remap_modules(modules, &a, &b);
        self.edges = remap_edges(&self.edges, &a, &b);
        self.type_edges = remap_edges(&self.type_edges, &a, &b);
        self.typed_registry_edges = remap_typed(&self.typed_registry_edges, &a, &b);
        self.diagnostics = remap_findings(&self.diagnostics, &a, &b);
        self.workspace_packages = remap_packages(&self.workspace_packages, &a, &b);
    }
}

/// A finding about a cycle.
pub open spec fn is_cycle_finding(d: Finding) -> bool {
    d.0 == "MONORIPPLE_PACKAGE_CYCLE"@ || d.0 == "MONORIPPLE_RUNTIME_MODULE_CYCLE"@
}

fn without_cycles(found: &Vec<Diagnostic>) -> (r: Vec<Diagnostic>)
    ensures
        findings_in(r@) == findings_in(found@).filter(|d: Finding| !is_cycle_finding(d)),
{
    let ghost all = models(found@);
    let ghost keep = |d: Finding| !is_cycle_finding(d);
    let mut out: Vec<Diagnostic> = Vec::new();
    let mut i: usize = 0;
    assert(findings_in(out@) =~= all.take(0).to_set().filter(keep));
    while i < found.len()
        invariant
            i <= found.len(),
            all == models(found@),
            keep == (|d: Finding| !is_cycle_finding(d)),
            findings_in(out@) == all.take(i as int).to_set().filter(keep),
        decreases found.len() - i,
    {
        let item = &found[i];
        if !same(item.code, "MONORIPPLE_PACKAGE_CYCLE") && !same(
            item.code,
            "MONORIPPLE_RUNTIME_MODULE_CYCLE",
        ) {
            crate::graph::links::report(&mut out, item.dup());
        }
        proof {
            assert(all.take(i + 1) =~= all.take(i as int).push(all[i as int]));
            push_to_set(all.take(i as int), all[i as int]);
            assert(findings_in(out@) =~= all.take(i + 1).to_set().filter(keep));
        }
        i += 1;
    }
    assert(all.take(i as int) =~= all);
    out
}

spec fn plain(c: NodeModel) -> spec_fn(NodeModel) -> Set<Edge> {
    |d: NodeModel| set![(c, d)]
}

spec fn plain_all(edges: Map<NodeModel, KeySet<Node>>) -> spec_fn(NodeModel) -> Set<Edge> {
    |c: NodeModel| union_over(edges[c].list(), plain(c))
}

fn merge_one(edges: &mut EdgeMap, consumer: &Node, dependencies: &KeySet<Node>)
    ensures
        edges_in(*final(edges)) == edges_in(*old(edges)).union(
            union_over(dependencies.list(), plain(consumer@)),
        ),
        final(edges)@.dom() == old(edges)@.dom().insert(consumer@),
{
    let ghost start = edges_in(*edges);
    if !edges.contains_key(consumer) {
        edges.insert(consumer.dup(), KeySet::new());
        assert(edges_in(*edges) =~= start);
    }
    let ghost known = edges@.dom();
    assert(known =~= old(edges)@.dom().insert(consumer@));
    let ghost list = dependencies.list();
    let ghost f = plain(consumer@);
    let n = dependencies.len();
    let mut i: usize = 0;
    proof {
        union_over_none(list.take(0), f);
        assert(start.union(Set::empty()) =~= start);
    }
    while i < n
        invariant
            i <= n,
            n == list.len(),
            list == dependencies.list(),
            f == plain(consumer@),
            edges@.dom() == known,
            known.contains(consumer@),
            edges_in(*edges) == start.union(union_over(list.take(i as int), f)),
        decreases n - i,
    {
        edges.link(consumer.dup(), dependencies.at(i).dup());
        assert(edges@.dom() =~= known);
        proof {
            union_over_next(list, f, i as int);
            assert(edges_in(*edges) =~= start.union(union_over(list.take(i + 1), f)));
        }
        i += 1;
    }
    proof {
        union_over_all(list, f, n as int);
    }
}

fn merge_edges(edges: &mut EdgeMap, other: &EdgeMap)
    ensures
        edges_in(*final(edges)) == edges_in(*old(edges)).union(edges_in(*other)),
        final(edges)@.dom() == old(edges)@.dom().union(other@.dom()),
{
    let ghost start = edges_in(*edges);
    let ghost known = edges@.dom();
    let ghost keys = other.keys();
    let ghost f = plain_all(other@);
    let n = other.len();
    let mut i: usize = 0;
    proof {
        union_over_none(keys.take(0), f);
        assert(start.union(Set::empty()) =~= start);
        assert(known =~= known.union(keys.take(0).to_set()));
    }
    while i < n
        invariant
            i <= n,
            n == keys.len(),
            keys == other.keys(),
            f == plain_all(other@),
            edges@.dom() == known.union(keys.take(i as int).to_set()),
            edges_in(*edges) == start.union(union_over(keys.take(i as int), f)),
        decreases n - i,
    {
        merge_one(edges, other.key_at(i), other.value_at(i));
        proof {
            assert(keys.take(i + 1) =~= keys.take(i as int).push(keys[i as int]));
            push_to_set(keys.take(i as int), keys[i as int]);
            assert(edges@.dom() =~= known.union(keys.take(i + 1).to_set()));
            union_over_next(keys, f, i as int);
            assert(edges_in(*edges) =~= start.union(union_over(keys.take(i + 1), f)));
        }
        i += 1;
    }
    proof {
        union_over_all(keys, f, n as int);
        assert(keys.take(n as int) =~= keys);
        other.dom_is_finite();
        let goal = edges_in(*other);
        assert forall|e: Edge| union_over(keys, f).contains(e) == goal.contains(e) by {
            if union_over(keys, f).contains(e) {
                let k = choose|k: int| 0 <= k < keys.len() && (#[trigger] f(keys[k])).contains(e);
                let g = plain(keys[k]);
                let l = other@[keys[k]].list();
                let x = choose|x: int| 0 <= x < l.len() && (#[trigger] g(l[x])).contains(e);
                assert(keys.contains(keys[k]));
                assert(l.contains(l[x]));
            }
            if goal.contains(e) {
                let k = choose|k: int| 0 <= k < keys.len() && keys[k] == e.0;
                let g = plain(keys[k]);
                let l = other@[keys[k]].list();
                let x = choose|x: int| 0 <= x < l.len() && l[x] == e.1;
                assert(g(l[x]).contains(e));
                assert(f(keys[k]).contains(e));
            }
        }
        assert(union_over(keys, f) =~= goal);
    }
}

fn merge_places(
    places: &mut KeyMap<(Node, Node), SourceLocation>,
    other: &KeyMap<(Node, Node), SourceLocation>,
)
    ensures
        final(places)@ == old(places)@.union_prefer_right(other@),
{
    let ghost start = places@;
    let ghost keys = other.keys();
    let n = other.len();
    let mut i: usize = 0;
    while i < n
        invariant
            i <= n,
            n == keys.len(),
            keys == other.keys(),
            other@.dom() == keys.to_set(),
            places@ =~= start.union_prefer_right(other@.restrict(keys.take(i as int).to_set())),
        decreases n - i,
    {
        let key = other.key_at(i).dup();
        let ghost k = keys[i as int];
        let ghost before = places@;
        places.insert(key, *other.value_at(i));
        proof {
            assert(keys.take(i + 1) =~= keys.take(i as int).push(k));
            push_to_set(keys.take(i as int), k);
            assert(places@ =~= before.insert(k, other@[k]));
        }
        i += 1;
    }
    proof {
        assert(keys.take(n as int) =~= keys);
        assert(other@.restrict(keys.to_set()) =~= other@);
    }
}

} // verus!
