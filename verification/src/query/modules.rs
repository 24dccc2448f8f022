//! The whole graph by modules, as a page shows it.
use vstd::prelude::*;

use crate::collections::{ascending_is_distinct, KeyMap, KeySet};
use crate::graph::explain::reason_for;
use crate::graph::links::EdgeMap;
use crate::graph::node::{Node, NodeModel};
use crate::graph::targets::{is_target_file, target_file};
use crate::order::Key;
use crate::parser::{ParsedModule, MODULE_INIT};
use crate::path::FilePath;
use crate::query::report::{display_edge_location, display_path, local_name, reason_place};
use crate::query::{label_of, task_label, Analysis};
use crate::viz::{
    id_lists, link_views, node_views, GraphLink, GraphNode, GraphView, LinkView, NodeKind, NodeView,
};
use crate::words::texts_of;
use crate::workspace::owner::Path;

verus! {

pub type Text = Seq<char>;

/// The numbers of two modules.
pub type ModuleLink = (int, int);

/// The links between modules that were found so far, each pair once.
#[verifier::ext_equal]
pub ghost struct ModuleLinks {
    pub seen: Set<ModuleLink>,
    pub links: Seq<LinkView>,
}

/// A changed file among these nodes.
pub open spec fn has_file(nodes: Set<NodeModel>, file: Path) -> bool {
    exists|n: NodeModel| #[trigger] nodes.contains(n) && n.0 == file
}

/// A file among these nodes, targets aside.
pub open spec fn has_module(nodes: Set<NodeModel>, file: Path) -> bool {
    file != target_file() && has_file(nodes, file)
}

impl Analysis {
    pub open spec fn files(self) -> Seq<Path> {
        self.graph.modules.keys()
    }

    pub open spec fn module_kind(self, file: Path) -> NodeKind {
        if has_file(self.changed_nodes(), file) {
            NodeKind::Seed
        } else if has_module(self.reachability.reached@, file) {
            NodeKind::Affected
        } else {
            NodeKind::Normal
        }
    }

    pub open spec fn module_node(self, root: Path, i: int) -> NodeView {
        let file = self.files()[i];
        NodeView {
            id: i,
            label: local_name(root, file),
            file: local_name(root, file),
            symbol: MODULE_INIT@,
            package: self.package_of((file, MODULE_INIT@)),
            kind: self.module_kind(file),
            details: Seq::empty(),
            paths: Seq::empty(),
        }
    }

    pub open spec fn module_nodes(self, root: Path) -> Seq<NodeView> {
        Seq::new(self.files().len(), |i: int| self.module_node(root, i))
    }

    /// The links after one more edge: it is new where it leads to another module and none between
    /// the two, of its kind, was found.
    pub open spec fn with_edge(
        self,
        root: Path,
        found: ModuleLinks,
        consumer: NodeModel,
        dependency: NodeModel,
        type_only: bool,
    ) -> ModuleLinks {
        let source = self.files().index_of(consumer.0);
        let target = self.files().index_of(dependency.0);
        if !self.files().contains(dependency.0) || source == target || found.seen.contains(
            (source, target),
        ) {
            found
        } else {
            let reason = reason_for(
                self.graph.world(),
                self.graph.typed_registry_edges@,
                consumer,
                dependency,
                type_only,
            );
            ModuleLinks {
                seen: found.seen.insert((source, target)),
                links: found.links.push(
                    LinkView {
                        source,
                        target,
                        type_only,
                        detail: reason.detail,
                        location: reason_place(root, reason),
                    },
                ),
            }
        }
    }

    pub open spec fn with_edges(
        self,
        root: Path,
        found: ModuleLinks,
        consumer: NodeModel,
        list: Seq<NodeModel>,
        type_only: bool,
        n: int,
    ) -> ModuleLinks
        decreases n,
    {
        if n <= 0 {
            found
        } else {
            self.with_edge(
                root,
                self.with_edges(root, found, consumer, list, type_only, n - 1),
                consumer,
                list[n - 1],
                type_only,
            )
        }
    }

    pub open spec fn with_consumers(
        self,
        root: Path,
        found: ModuleLinks,
        edges: EdgeMap,
        type_only: bool,
        n: int,
    ) -> ModuleLinks
        decreases n,
    {
        if n <= 0 {
            found
        } else {
            let before = self.with_consumers(root, found, edges, type_only, n - 1);
            let consumer = edges.keys()[n - 1];
            if self.files().contains(consumer.0) {
                let list = edges@[consumer].list();
                self.with_edges(root, before, consumer, list, type_only, list.len() as int)
            } else {
                before
            }
        }
    }

    pub open spec fn links_of_kind(self, root: Path, edges: EdgeMap, type_only: bool) -> Seq<LinkView> {
        self.with_consumers(
            root,
            ModuleLinks { seen: Set::empty(), links: Seq::empty() },
            edges,
            type_only,
            edges.keys().len() as int,
        ).links
    }

    /// All links between modules.
    pub open spec fn module_links(self, root: Path) -> Seq<LinkView> {
        self.links_of_kind(root, self.graph.edges, false) + self.links_of_kind(
            root,
            self.graph.type_edges,
            true,
        )
    }
}

fn collect_files(nodes: &KeySet<Node>) -> (r: KeySet<FilePath>)
    ensures
        forall|f: Path| #[trigger] r@.contains(f) == has_file(nodes@, f),
{
    let ghost list = nodes.list();
    let n = nodes.len();
    let mut out: KeySet<FilePath> = KeySet::new();
    let mut i: usize = 0;
    while i < n
        invariant
            i <= n,
            n == list.len(),
            list == nodes.list(),
            forall|f: Path| #[trigger]
                out@.contains(f) == (exists|k: int| 0 <= k < i && (#[trigger] list[k]).0 == f),
        decreases n - i,
    {
        let ghost before = out@;
        let node = nodes.at(i);
        out.insert(node.file.dup());
        proof {
            assert forall|f: Path| #[trigger]
                out@.contains(f) == (exists|k: int| 0 <= k < i + 1 && (#[trigger] list[k]).0 == f) by {
                assert(before.contains(f) == (exists|k: int|
                    0 <= k < i && (#[trigger] list[k]).0 == f));
                assert(list[i as int].0 == node.file@);
            }
        }
        i += 1;
    }
    proof {
        assert forall|f: Path| #[trigger] out@.contains(f) == has_file(nodes@, f) by {
            if has_file(nodes@, f) {
                let m = choose|m: NodeModel| #[trigger] nodes@.contains(m) && m.0 == f;
                let k = choose|k: int| 0 <= k < list.len() && list[k] == m;
                assert(list[k].0 == f);
            }
            if out@.contains(f) {
                let k = choose|k: int| 0 <= k < i && (#[trigger] list[k]).0 == f;
                assert(nodes@.contains(list[k]));
            }
        }
    }
    out
}

/// The number of a module.
fn find_module(files: &KeySet<FilePath>, file: &FilePath) -> (r: Option<usize>)
    ensures
        match r {
            Some(i) => files.list().contains(file@) && files.list().index_of(file@) == i,
            None => !files.list().contains(file@),
        },
{
    let ghost list = files.list();
    let count = files.len();
    match files.position(file) {
        Some(i) => {
            proof {
                assert(list.contains(file@));
                ascending_is_distinct::<FilePath>(list, i as int, list.index_of(file@));
            }
            Some(i)
        },
        None => {
            assert(files@.contains(file@) == list.contains(file@));
            None
        },
    }
}

/// The keys of a map as a set.
fn key_set(modules: &KeyMap<FilePath, ParsedModule>) -> (r: KeySet<FilePath>)
    ensures
        r.list() == modules.keys(),
{
    let ghost keys = modules.keys();
    let n = modules.len();
    let mut out: KeySet<FilePath> = KeySet::new();
    let mut i: usize = 0;
    assert(out@ =~= keys.take(0).to_set());
    while i < n
        invariant
            i <= n,
            n == keys.len(),
            keys == modules.keys(),
            out@ == keys.take(i as int).to_set(),
        decreases n - i,
    {
        out.insert(modules.key_at(i).dup());
        proof {
            assert(keys.take(i + 1) =~= keys.take(i as int).push(keys[i as int]));
            crate::collections::push_to_set(keys.take(i as int), keys[i as int]);
        }
        i += 1;
    }
    let count = out.len();
    let again = modules.len();
    proof {
        assert(keys.take(n as int) =~= keys);
        crate::collections::ascending_is_unique::<FilePath>(out.list(), keys);
    }
    out
}

/// Links between modules under construction.
struct LinkBuilder {
    seen: KeySet<(usize, usize)>,
    links: Vec<GraphLink>,
}

impl LinkBuilder {
    spec fn found(self) -> ModuleLinks {
        ModuleLinks { seen: self.seen@, links: link_views(self.links@) }
    }
}

impl Analysis {
    fn add_edge(
        &self,
        root: &FilePath,
        files: &KeySet<FilePath>,
        found: &mut LinkBuilder,
        consumer: &Node,
        source: usize,
        dependency: &Node,
        type_only: bool,
    )
        requires
            files.list() == self.files(),
            source == self.files().index_of(consumer.file@),
        ensures
            final(found).found() == self.with_edge(
                root@,
                old(found).found(),
                consumer@,
                dependency@,
                type_only,
            ),
    {
        let target = match find_module(files, &dependency.file) {
            Some(target) => target,
            None => {
                return;
            },
        };
        if source == target || found.seen.contains(&(source, target)) {
            return;
        }
        found.seen.insert((source, target));
        let explanation = self.graph.edge_explanation(consumer, dependency, type_only);
        let location = display_edge_location(root, &explanation);
        let link = GraphLink { source, target, type_only, detail: explanation.detail, location };
        let ghost v = link@;
        let ghost before = link_views(found.links@);
        found.links.push(link);
        assert(link_views(found.links@) =~= before.push(v));
    }

    fn add_edges(
        &self,
        root: &FilePath,
        files: &KeySet<FilePath>,
        found: &mut LinkBuilder,
        consumer: &Node,
        source: usize,
        list: &KeySet<Node>,
        type_only: bool,
    )
        requires
            files.list() == self.files(),
            source == self.files().index_of(consumer.file@),
        ensures
            final(found).found() == self.with_edges(
                root@,
                old(found).found(),
                consumer@,
                list.list(),
                type_only,
                list.list().len() as int,
            ),
    {
        let ghost start = found.found();
        let ghost all = list.list();
        let n = list.len();
        let mut i: usize = 0;
        while i < n
            invariant
                i <= n,
                n == all.len(),
                all == list.list(),
                files.list() == self.files(),
                source == self.files().index_of(consumer.file@),
                found.found() == self.with_edges(
                    root@,
                    start,
                    consumer@,
                    all,
                    type_only,
                    i as int,
                ),
            decreases n - i,
        {
            self.add_edge(root, files, found, consumer, source, list.at(i), type_only);
            i += 1;
        }
    }

    fn list_links(&self, root: &FilePath, files: &KeySet<FilePath>, edges: &EdgeMap, type_only: bool) -> (r:
        Vec<GraphLink>)
        requires
            files.list() == self.files(),
        ensures
            link_views(r@) == self.links_of_kind(root@, *edges, type_only),
    {
        let mut found = LinkBuilder { seen: KeySet::new(), links: Vec::new() };
        let ghost start = ModuleLinks { seen: Set::empty(), links: Seq::empty() };
        assert(link_views(found.links@) =~= Seq::empty());
        let ghost keys = edges.keys();
        let n = edges.len();
        let mut i: usize = 0;
        while i < n
            invariant
                i <= n,
                n == keys.len(),
                keys == edges.keys(),
                files.list() == self.files(),
                found.found() == self.with_consumers(root@, start, *edges, type_only, i as int),
            decreases n - i,
        {
            let consumer = edges.key_at(i);
            match find_module(files, &consumer.file) {
                Some(source) => {
                    self.add_edges(
                        root,
                        files,
                        &mut found,
                        consumer,
                        source,
                        edges.value_at(i),
                        type_only,
                    );
                },
                None => {},
            }
            i += 1;
        }
        found.links
    }

    fn list_modules(&self, root: &FilePath) -> (r: Vec<GraphNode>)
        ensures
            node_views(r@) == self.module_nodes(root@),
    {
        let changed = collect_files(self.changed());
        let reached = collect_files(&self.reachability.reached);
        let ghost keys = self.files();
        let ghost all = self.module_nodes(root@);
        let n = self.graph.modules.len();
        let mut out: Vec<GraphNode> = Vec::new();
        let mut i: usize = 0;
        while i < n
            invariant
                i <= n,
                n == keys.len(),
                keys == self.files(),
                all == self.module_nodes(root@),
                forall|f: Path| #[trigger]
                    changed@.contains(f) == has_file(self.changed_nodes(), f),
                forall|f: Path| #[trigger]
                    reached@.contains(f) == has_file(self.reachability.reached@, f),
                node_views(out@) =~= all.take(i as int),
            decreases n - i,
        {
            let file = self.graph.modules.key_at(i);
            let kind = if changed.contains(file) {
                NodeKind::Seed
            } else if !is_target_file(file) && reached.contains(file) {
                NodeKind::Affected
            } else {
                NodeKind::Normal
            };
            let paths: Vec<Vec<usize>> = Vec::new();
            let details: Vec<String> = Vec::new();
            proof {
                assert(id_lists(paths@) =~= Seq::empty());
                assert(texts_of(details@) =~= Seq::empty());
            }
            let item = GraphNode {
                id: i,
                label: display_path(root, file),
                file: display_path(root, file),
                symbol: MODULE_INIT.to_owned(),
                package: self.name_package(&Node::new(file.dup(), MODULE_INIT.to_owned())),
                kind,
                details,
                paths,
            };
            let ghost v = item@;
            let ghost before = node_views(out@);
            out.push(item);
            proof {
                assert(v == self.module_node(root@, i as int));
                assert(node_views(out@) =~= before.push(v));
            }
            i += 1;
        }
        assert(all.take(n as int) =~= all);
        out
    }
}

/// The view of the whole graph by modules.
pub fn build_module_view(root: &FilePath, analysis: &Analysis) -> (r: GraphView)
    ensures
        node_views(r.nodes@) == analysis.module_nodes(root@),
        link_views(r.links@) == analysis.module_links(root@),
        r.package is None,
        r.base@ == analysis.base@,
        r.task@ == label_of(analysis.task),
        r.scope@ == "all"@,
{
    let files = key_set(&analysis.graph.modules);
    let nodes = analysis.list_modules(root);
    let mut links = analysis.list_links(root, &files, &analysis.graph.edges, false);
    let mut more = analysis.list_links(root, &files, &analysis.graph.type_edges, true);
    let ghost a = link_views(links@);
    let ghost b = link_views(more@);
    links.append(&mut more);
    assert(link_views(links@) =~= a + b);
    GraphView {
        package: None,
        base: analysis.base.clone(),
        task: task_label(analysis.task).to_owned(),
        scope: "all".to_owned(),
        nodes,
        links,
    }
}

} // verus!
