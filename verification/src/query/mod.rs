//! Questions about a workspace and their answers.
pub mod answer_laws;
pub mod command;
pub mod command_laws;
pub mod extend;
pub mod laws;
pub mod lockfiles;
pub mod module_laws;
pub mod modules;
pub mod report;
pub mod view;
pub mod view_laws;
pub mod why;

use vstd::prelude::*;

use crate::analysis::{base_view, find_change_seeds, found, ChangeSeeds, ChangeTexts, Ground};
use crate::collections::{ascending, ascending_list, ascending_list_is, KeySet};
use crate::diagnostics::Diagnostic;
use crate::git::{ChangeKind, ChangedFile, KindModel};
use crate::graph::findings::sorted_findings;
use crate::graph::links::{edges_in, findings_in};
use crate::graph::model::DependencyGraph;
use crate::graph::node::NodeModel;
use crate::graph::reach::{consumed_by, Reachability};
use crate::order::{models, Key};
use crate::parser::syntax::is_source_extension;
use crate::parser::{is_source_file, ParseError};
use crate::path::{extension_of, name_of, FilePath};
use crate::query::extend::report_all;
use crate::query::lockfiles::{lockfile_findings, report_lockfiles};
use crate::text::{ends_with, same, starts_with};
use crate::words::texts_of;
use crate::workspace::owner::{owner_of, package_for_path, Path};
use crate::workspace::Package;

verus! {

pub type Text = Seq<char>;

/// How many paths to a target are shown at most.
pub const MAX_REASON_PATHS: usize = 20;

/// What a change is to affect: what is deployed, or what is type-checked.
#[derive(Clone, Copy, Debug, PartialEq, Eq, Structural)]
pub enum TaskKind {
    Deploy,
    Typecheck,
}

#[derive(Clone, Copy, Debug, PartialEq, Eq, Structural)]
pub enum OutputFormat {
    Text,
    Json,
    Turbo,
    VitePlus,
}

/// Whether warnings are shown, and whether they fail a query.
#[derive(Clone, Copy, Debug, PartialEq, Eq, Structural)]
pub enum WarningPolicy {
    Off,
    Warn,
    Error,
}

pub open spec fn label_of(task: TaskKind) -> Text {
    match task {
        TaskKind::Deploy => "deploy"@,
        TaskKind::Typecheck => "typecheck"@,
    }
}

pub fn task_label(task: TaskKind) -> (r: &'static str)
    ensures
        r@ == label_of(task),
{
    match task {
        TaskKind::Deploy => "deploy",
        TaskKind::Typecheck => "typecheck",
    }
}

/// What is known of a workspace and its changes.
pub struct Analysis {
    /// The graph of the workspace, with the edges that it had at the base revision.
    pub graph: DependencyGraph,
    /// All findings, in ascending order and each once.
    pub diagnostics: Vec<Diagnostic>,
    pub packages: Vec<Package>,
    pub seeds: ChangeSeeds,
    pub reachability: Reachability,
    /// The packages that changes reach through crates.
    pub crate_packages: KeySet<String>,
    pub task: TaskKind,
    pub base: String,
}

/// A change that may take away what was there at the base revision.
pub open spec fn may_remove(path: Path, kind: KindModel) -> bool {
    is_source_extension(extension_of(path)) || kind is Deleted || kind is Renamed || match name_of(
        path,
    ) {
        Some(name) => name == "package.json"@ || name == "pnpm-workspace.yaml"@ || (
        "tsconfig"@.is_prefix_of(name) && ".json"@.is_suffix_of(name)),
        None => false,
    }
}

fn change_may_remove(change: &ChangedFile) -> (r: bool)
    ensures
        r == may_remove(change.path@, change.kind@),
{
    if is_source_file(&change.path) {
        return true;
    }
    match change.kind {
        ChangeKind::Deleted | ChangeKind::Renamed { .. } => {
            return true;
        },
        _ => {},
    }
    match change.path.file_name() {
        Some(name) => same(name.as_str(), "package.json") || same(
            name.as_str(),
            "pnpm-workspace.yaml",
        ) || (starts_with(name.as_str(), "tsconfig") && ends_with(name.as_str(), ".json")),
        None => false,
    }
}

/// Whether the graph of the base revision is needed to see what these changes affect.
pub fn needs_base_graph(changes: &Vec<ChangedFile>) -> (r: bool)
    ensures
        r == (exists|i: int|
            0 <= i < changes@.len() && may_remove(
                (#[trigger] changes@[i]).path@,
                changes@[i].kind@,
            )),
{
    let mut i: usize = 0;
    while i < changes.len()
        invariant
            i <= changes.len(),
            forall|k: int|
                0 <= k < i ==> !may_remove((#[trigger] changes@[k]).path@, changes@[k].kind@),
        decreases changes.len() - i,
    {
        if change_may_remove(&changes[i]) {
            return true;
        }
        i += 1;
    }
    false
}

/// The graph of a workspace with the edges of its base revision.
pub open spec fn is_merged(
    graph: DependencyGraph,
    base: Option<DependencyGraph>,
    merged: DependencyGraph,
) -> bool {
    match base {
        Some(b) => {
            &&& merged.same_modules(graph)
            &&& merged.targets == graph.targets
            &&& merged.diagnostics == graph.diagnostics
            &&& edges_in(merged.edges) == edges_in(graph.edges).union(edges_in(b.edges))
            &&& edges_in(merged.type_edges) == edges_in(graph.type_edges).union(
                edges_in(b.type_edges),
            )
            &&& merged.edges@.dom() == graph.edges@.dom().union(b.edges@.dom())
            &&& merged.type_edges@.dom() == graph.type_edges@.dom().union(b.type_edges@.dom())
            &&& merged.typed_registry_edges@ == graph.typed_registry_edges@.union_prefer_right(
                b.typed_registry_edges@,
            )
        },
        None => merged == graph,
    }
}

impl Analysis {
    /// The changed nodes that the task starts from.
    pub open spec fn changed_nodes(self) -> Set<NodeModel> {
        match self.task {
            TaskKind::Deploy => self.seeds.nodes@,
            TaskKind::Typecheck => self.seeds.type_nodes@,
        }
    }

    /// How the task passes changes on.
    pub open spec fn passes_on(self) -> spec_fn(NodeModel, NodeModel) -> bool {
        match self.task {
            TaskKind::Deploy => consumed_by(edges_in(self.graph.edges)),
            TaskKind::Typecheck => consumed_by(
                edges_in(self.graph.edges).union(edges_in(self.graph.type_edges)),
            ),
        }
    }

    /// The reachability is that of the changed nodes.
    pub open spec fn is_explored(self) -> bool {
        &&& self.reachability.seeds@ == self.changed_nodes()
        &&& self.reachability.explores(self.passes_on())
        &&& self.reachability.has_chains()
    }

    pub fn changed(&self) -> (r: &crate::collections::KeySet<crate::graph::node::Node>)
        ensures
            r@ == self.changed_nodes(),
    {
        match self.task {
            TaskKind::Deploy => &self.seeds.nodes,
            TaskKind::Typecheck => &self.seeds.type_nodes,
        }
    }
}

/// Finds out what the changes of a workspace affect. The base graph, where it is needed, holds
/// the paths of the current workspace.
pub fn analyze(
    root: &FilePath,
    graph: DependencyGraph,
    base_graph: Option<&DependencyGraph>,
    packages: Vec<Package>,
    changes: &Vec<ChangeTexts>,
    crate_packages: KeySet<String>,
    task: TaskKind,
    base: &str,
) -> (r: Result<Analysis, ParseError>)
    ensures
        match r {
            Ok(a) => {
                &&& is_merged(graph, base_view(base_graph), a.graph)
                &&& found(
                    Ground {
                        root: root@,
                        packages: packages@,
                        graph: a.graph,
                        base: base_view(base_graph),
                    },
                    changes@,
                    Ok(a.seeds),
                )
                &&& findings_in(a.diagnostics@) == findings_in(graph.diagnostics@).union(
                    lockfile_findings(root@, changes@, models(a.seeds.diagnostics@)),
                )
                &&& ascending::<Diagnostic>(models(a.diagnostics@))
                &&& a.is_explored()
                &&& a.packages == packages
                &&& a.crate_packages == crate_packages
                &&& a.task == task
                &&& a.base@ == base@
            },
            Err(fault) => exists|merged: DependencyGraph| #[trigger]
                is_merged(graph, base_view(base_graph), merged) && found(
                    Ground {
                        root: root@,
                        packages: packages@,
                        graph: merged,
                        base: base_view(base_graph),
                    },
                    changes@,
                    Err(fault),
                ),
        },
{
    let mut merged = graph;
    match base_graph {
        Some(old_graph) => {
            merged.merge_edges_from(old_graph);
        },
        None => {},
    }
    let seeds = match find_change_seeds(root, changes, &packages, &merged, base_graph) {
        Ok(seeds) => seeds,
        Err(fault) => {
            assert(is_merged(graph, base_view(base_graph), merged));
            return Err(fault);
        },
    };
    let mut all: Vec<Diagnostic> = Vec::new();
    assert(findings_in(all@) =~= Set::empty());
    report_all(&mut all, &merged.diagnostics);
    report_lockfiles(&mut all, root, changes, &seeds.diagnostics);
    let diagnostics = sorted_findings(&all);
    assert(findings_in(diagnostics@) =~= findings_in(graph.diagnostics@).union(
        lockfile_findings(root@, changes@, models(seeds.diagnostics@)),
    ));
    let reachability = match task {
        TaskKind::Deploy => merged.affected(&seeds.nodes),
        TaskKind::Typecheck => merged.affected_typecheck(&seeds.type_nodes),
    };
    Ok(
        Analysis {
            graph: merged,
            diagnostics,
            packages,
            seeds,
            reachability,
            crate_packages,
            task,
            base: base.to_owned(),
        },
    )
}

impl Analysis {
    /// A target that changes reach, or whose package they concern as a whole.
    pub open spec fn is_hit(self, i: int) -> bool {
        self.reachability.reached@.contains(self.graph.targets@[i].node@)
            || self.seeds.direct_packages@.dom().contains(self.graph.targets@[i].package@)
    }

    pub open spec fn is_hit_target(self, name: Text) -> bool {
        exists|i: int|
            0 <= i < self.graph.targets@.len() && (#[trigger] self.graph.targets@[i]).package@ == name
                && self.is_hit(i)
    }

    /// A package one of whose nodes changes reach.
    pub open spec fn is_reached_package(self, name: Text) -> bool {
        exists|n: NodeModel| #[trigger]
            self.reachability.reached@.contains(n) && self.owns(name, n)
    }

    pub open spec fn owns(self, name: Text, n: NodeModel) -> bool {
        match owner_of(self.packages@, n.0) {
            Some(i) => self.packages@[i].name@ == name,
            None => false,
        }
    }

    /// The packages that the changes affect.
    pub open spec fn affected(self) -> Set<Text> {
        Set::new(
            |name: Text|
                self.crate_packages@.contains(name) || match self.task {
                    TaskKind::Deploy => self.is_hit_target(name),
                    TaskKind::Typecheck => self.is_reached_package(name)
                        || self.seeds.direct_packages@.dom().contains(name),
                },
        )
    }

    fn add_hit_targets(&self, out: &mut KeySet<String>)
        ensures
            forall|name: Text| #[trigger]
                final(out)@.contains(name) == (old(out)@.contains(name) || self.is_hit_target(name)),
    {
        let ghost start = out@;
        let mut i: usize = 0;
        while i < self.graph.targets.len()
            invariant
                i <= self.graph.targets.len(),
                forall|name: Text| #[trigger]
                    out@.contains(name) == (start.contains(name) || exists|k: int|
                        0 <= k < i && (#[trigger] self.graph.targets@[k]).package@ == name
                            && self.is_hit(k)),
            decreases self.graph.targets.len() - i,
        {
            let target = &self.graph.targets[i];
            let ghost before = out@;
            let hit = self.reachability.reached.contains(&target.node)
                || self.seeds.direct_packages.contains_key(&target.package);
            if hit {
                out.insert(target.package.clone());
            }
            proof {
                assert(hit == self.is_hit(i as int));
                assert forall|name: Text| #[trigger]
                    out@.contains(name) == (start.contains(name) || exists|k: int|
                        0 <= k < i + 1 && (#[trigger] self.graph.targets@[k]).package@ == name
                            && self.is_hit(k)) by {
                    assert(before.contains(name) == (start.contains(name) || exists|k: int|
                        0 <= k < i && (#[trigger] self.graph.targets@[k]).package@ == name
                            && self.is_hit(k)));
                    if hit && name == target.package@ {
                        assert(self.graph.targets@[i as int].package@ == name);
                    }
                }
            }
            i += 1;
        }
    }

    fn add_reached_packages(&self, out: &mut KeySet<String>)
        ensures
            forall|name: Text| #[trigger]
                final(out)@.contains(name) == (old(out)@.contains(name)
                    || self.is_reached_package(name)),
    {
        let ghost start = out@;
        let ghost list = self.reachability.reached.list();
        let n = self.reachability.reached.len();
        let mut i: usize = 0;
        while i < n
            invariant
                i <= n,
                n == list.len(),
                list == self.reachability.reached.list(),
                forall|name: Text| #[trigger]
                    out@.contains(name) == (start.contains(name) || exists|k: int|
                        0 <= k < i && self.owns(name, #[trigger] list[k])),
            decreases n - i,
        {
            let node = self.reachability.reached.at(i);
            let ghost before = out@;
            let found = package_for_path(&self.packages, &node.file);
            match found {
                Some(package) => {
                    out.insert(package.name.clone());
                },
                None => {},
            }
            proof {
                assert forall|name: Text| #[trigger]
                    out@.contains(name) == (start.contains(name) || exists|k: int|
                        0 <= k < i + 1 && self.owns(name, #[trigger] list[k])) by {
                    assert(before.contains(name) == (start.contains(name) || exists|k: int|
                        0 <= k < i && self.owns(name, #[trigger] list[k])));
                    assert(out@.contains(name) == (before.contains(name) || self.owns(
                        name,
                        list[i as int],
                    )));
                }
            }
            i += 1;
        }
        proof {
            assert forall|name: Text| #[trigger]
                out@.contains(name) == (start.contains(name) || self.is_reached_package(name)) by {
                if self.is_reached_package(name) {
                    let m = choose|m: NodeModel| #[trigger]
                        self.reachability.reached@.contains(m) && self.owns(name, m);
                    let k = choose|k: int| 0 <= k < list.len() && list[k] == m;
                    assert(self.owns(name, list[k]));
                }
                if exists|k: int| 0 <= k < i && self.owns(name, #[trigger] list[k]) {
                    let k = choose|k: int| 0 <= k < i && self.owns(name, #[trigger] list[k]);
                    assert(self.reachability.reached@.contains(list[k]));
                }
            }
        }
    }

    fn add_direct_packages(&self, out: &mut KeySet<String>)
        ensures
            final(out)@ == old(out)@.union(self.seeds.direct_packages@.dom()),
    {
        let ghost start = out@;
        let ghost keys = self.seeds.direct_packages.keys();
        let n = self.seeds.direct_packages.len();
        let mut i: usize = 0;
        assert(out@ =~= start.union(keys.take(0).to_set()));
        while i < n
            invariant
                i <= n,
                n == keys.len(),
                keys == self.seeds.direct_packages.keys(),
                out@ == start.union(keys.take(i as int).to_set()),
            decreases n - i,
        {
            out.insert(self.seeds.direct_packages.key_at(i).clone());
            proof {
                assert(keys.take(i + 1) =~= keys.take(i as int).push(keys[i as int]));
                crate::collections::push_to_set(keys.take(i as int), keys[i as int]);
                assert(out@ =~= start.union(keys.take(i + 1).to_set()));
            }
            i += 1;
        }
        assert(keys.take(n as int) =~= keys);
    }
}

/// The texts of a set in ascending order.
pub(crate) fn list_texts(found: &KeySet<String>) -> (r: Vec<String>)
    ensures
        texts_of(r@) == ascending_list::<String>(found@),
{
    let n = found.len();
    let ghost list = found.list();
    let mut out: Vec<String> = Vec::new();
    let mut k: usize = 0;
    while k < n
        invariant
            k <= n,
            list == found.list(),
            n == list.len(),
            texts_of(out@) =~= list.take(k as int),
        decreases n - k,
    {
        let ghost before = texts_of(out@);
        let item = found.at(k).clone();
        out.push(item);
        assert(texts_of(out@) =~= before.push(item@));
        k += 1;
    }
    proof {
        assert(list.take(n as int) =~= list);
        ascending_list_is::<String>(list, found@);
    }
    out
}

/// The packages that the changes affect, in ascending order.
pub fn affected_packages(analysis: &Analysis) -> (r: Vec<String>)
    ensures
        texts_of(r@) == ascending_list::<String>(analysis.affected()),
{
    let mut out = analysis.crate_packages.dup();
    match analysis.task {
        TaskKind::Deploy => {
            analysis.add_hit_targets(&mut out);
        },
        TaskKind::Typecheck => {
            analysis.add_reached_packages(&mut out);
            analysis.add_direct_packages(&mut out);
        },
    }
    assert(out@ =~= analysis.affected());
    list_texts(&out)
}

} // verus!
