//! The part of the graph that leads from changes to targets, as a page shows it.
use vstd::prelude::*;

use crate::collections::{
    ascending_list, ascending_list_is, union_over, union_over_all, union_over_next,
    union_over_none, KeyMap, KeySet,
};
use crate::graph::explain::reason_for;
use crate::graph::links::EdgeMap;
use crate::graph::node::{Node, NodeModel};
use crate::graph::paths::{path_models, reason_paths};
use crate::graph::targets::{is_target_file, target_file};
use crate::order::{chars_of, models, Key};
use crate::parser::{ImportBinding, ImportedName, ParsedModule};
use crate::path::FilePath;
use crate::query::command::{contains_text, holds_text};
use crate::query::report::{
    display_edge_location, display_node, display_path, local_name, node_label, reason_place,
};
use crate::query::{label_of, task_label, Analysis, MAX_REASON_PATHS};
use crate::text::{join3, starts_with, text_between};
use crate::viz::{
    id_list, id_lists, link_views, node_views, GraphLink, GraphNode, GraphView, LinkView, NodeKind,
    NodeView,
};
use crate::words::{find_first_from, first_place, texts_of};
use crate::workspace::owner::{owner_of, package_for_path, Path};
use crate::workspace::roots::{find_named, package_with_name};

verus! {

pub type Text = Seq<char>;

/// The dependency that a change of a manifest added.
pub open spec fn added_name(detail: Text) -> Option<Text> {
    if "added "@.is_prefix_of(detail) && holds_text(detail, "dependency `"@) {
        let a = first_place(detail, '`', 0);
        let b = first_place(detail, '`', a + 1);
        if a < detail.len() && b < detail.len() {
            Some(detail.subrange(a + 1, b))
        } else {
            None
        }
    } else {
        None
    }
}

/// The names that an import takes; a star for a namespace that is used as a whole.
pub open spec fn imported_names(imported: ImportedName) -> Set<Text> {
    match imported {
        ImportedName::Named(name) => set![name@],
        ImportedName::Namespace { members: Some(members) } => members@,
        ImportedName::Namespace { members: None } => set!["*"@],
    }
}

pub open spec fn names_bound(
    bindings: KeyMap<String, ImportBinding>,
    source: Text,
) -> spec_fn(Text) -> Set<Text> {
    |local: Text|
        if bindings@[local].source@ == source {
            imported_names(bindings@[local].imported)
        } else {
            Set::empty()
        }
}

pub open spec fn bindings_of(m: ParsedModule, type_only: bool) -> KeyMap<
    String,
    ImportBinding,
> {
    if type_only {
        m.type_imports
    } else {
        m.imports
    }
}

/// What the modules below a directory take from `source`.
pub open spec fn names_taken(
    modules: Map<Path, ParsedModule>,
    dir: Path,
    source: Text,
    type_only: bool,
) -> spec_fn(Path) -> Set<Text> {
    |path: Path|
        if dir.is_prefix_of(path) {
            let bindings = bindings_of(modules[path], type_only);
            union_over(bindings.keys(), names_bound(bindings, source))
        } else {
            Set::empty()
        }
}

pub open spec fn names_used(
    modules: KeyMap<FilePath, ParsedModule>,
    dir: Path,
    source: Text,
    type_only: bool,
) -> Set<Text> {
    union_over(modules.keys(), names_taken(modules@, dir, source, type_only))
}

/// One use of an export: its name, and whether it is used for types only.
pub type Use = (Text, bool);

pub open spec fn with_flag(names: Seq<Text>, type_only: bool) -> Seq<Use> {
    names.map_values(|n: Text| (n, type_only))
}

impl Analysis {
    /// What leads from changes to a target, with the target; nothing where changes do not hit it.
    pub open spec fn led_to(self, i: int) -> Set<NodeModel> {
        if self.is_hit(i) {
            on_paths(self.paths_to_target(i)).insert(self.graph.targets@[i].node@)
        } else {
            Set::empty()
        }
    }

    /// The nodes that are shown.
    pub open spec fn shown_nodes(self) -> Set<NodeModel> {
        Set::new(
            |n: NodeModel|
                exists|i: int|
                    0 <= i < self.graph.targets@.len() && (#[trigger] self.led_to(i)).contains(n),
        )
    }

    /// The nodes that are shown, in ascending order: a node's place is its number.
    pub open spec fn order(self) -> Seq<NodeModel> {
        ascending_list::<Node>(self.shown_nodes())
    }

    pub open spec fn kind_of(self, n: NodeModel) -> NodeKind {
        if n.0 == target_file() {
            NodeKind::Target
        } else if self.changed_nodes().contains(n) {
            NodeKind::Seed
        } else if self.reachability.reached@.contains(n) {
            NodeKind::Affected
        } else {
            NodeKind::Normal
        }
    }

    /// The package that a node belongs to.
    pub open spec fn package_of(self, n: NodeModel) -> Text {
        if n.0 == target_file() {
            n.1
        } else {
            match owner_of(self.packages@, n.0) {
                Some(i) => self.packages@[i].name@,
                None => ""@,
            }
        }
    }

    /// What is said of a target that is concerned as a whole.
    pub open spec fn inputs_of(self, root: Path, n: NodeModel) -> Seq<Text> {
        if n.0 == target_file() && self.seeds.direct_packages@.dom().contains(n.1) {
            let inputs = self.seeds.direct_packages@[n.1];
            input_texts(root, inputs@, inputs.keys(), inputs.keys().len() as int)
        } else {
            Seq::empty()
        }
    }

    pub open spec fn plain_node(self, root: Path, n: NodeModel, id: int) -> NodeView {
        NodeView {
            id,
            label: node_label(root, n),
            file: local_name(root, n.0),
            symbol: n.1,
            package: self.package_of(n),
            kind: self.kind_of(n),
            details: self.inputs_of(root, n),
            paths: Seq::empty(),
        }
    }

    pub open spec fn plain_nodes(self, root: Path) -> Seq<NodeView> {
        let order = self.order();
        Seq::new(order.len(), |i: int| self.plain_node(root, order[i], i))
    }

    /// The dependencies that changes added to a package.
    pub open spec fn added_to(self, package: Text) -> Set<Text> {
        if self.seeds.direct_packages@.dom().contains(package) {
            let inputs = self.seeds.direct_packages@[package];
            union_over(inputs.keys(), added_by(inputs@))
        } else {
            Set::empty()
        }
    }

    /// The exports of one dependency that a package uses: those at run time, then those for types
    /// only.
    pub open spec fn uses_of(self, dir: Path, source: Text) -> Seq<Use> {
        let runtime = names_used(self.graph.modules, dir, source, false);
        let types = names_used(self.graph.modules, dir, source, true).difference(runtime);
        with_flag(ascending_list::<String>(runtime), false) + with_flag(
            ascending_list::<String>(types),
            true,
        )
    }
}

pub open spec fn on_paths(paths: Seq<Seq<NodeModel>>) -> Set<NodeModel> {
    Set::new(
        |n: NodeModel|
            exists|i: int, j: int|
                0 <= i < paths.len() && 0 <= j < paths[i].len() && #[trigger] paths[i][j] == n,
    )
}

/// The texts of the first `n` inputs: each path with what is said of it.
pub open spec fn input_texts(
    root: Path,
    inputs: Map<Path, Vec<String>>,
    keys: Seq<Path>,
    n: int,
) -> Seq<Text>
    decreases n,
{
    if n <= 0 {
        Seq::empty()
    } else {
        input_texts(root, inputs, keys, n - 1).push(local_name(root, keys[n - 1])) + texts_of(
            inputs[keys[n - 1]]@,
        )
    }
}

pub open spec fn added_in(detail: Text) -> Set<Text> {
    match added_name(detail) {
        Some(name) => set![name],
        None => Set::empty(),
    }
}

pub open spec fn added_detail() -> spec_fn(String) -> Set<Text> {
    |detail: String| added_in(detail@)
}

pub open spec fn added_by(inputs: Map<Path, Vec<String>>) -> spec_fn(Path) -> Set<Text> {
    |path: Path| union_over(inputs[path]@, added_detail())
}

/// A page while it takes in the uses of shared dependencies: its nodes, the numbers of the nodes
/// of exports, and the links.
#[verifier::ext_equal]
pub ghost struct Page {
    pub nodes: Seq<NodeView>,
    pub exports: Map<(Text, Text), int>,
    pub links: Seq<LinkView>,
}

pub open spec fn export_node(id: int, source: Text, name: Text) -> NodeView {
    NodeView {
        id,
        label: source + "#"@ + name,
        file: source,
        symbol: name,
        package: source,
        kind: NodeKind::Dependency,
        details: Seq::empty(),
        paths: Seq::empty(),
    }
}

pub open spec fn said(node: NodeView, detail: Text) -> NodeView {
    NodeView { details: node.details.push(detail), ..node }
}

pub open spec fn usage(type_only: bool) -> Text {
    if type_only {
        "type"@
    } else {
        "runtime"@
    }
}

impl Page {
    /// The number of the node of an export.
    pub open spec fn export_id(self, source: Text, name: Text) -> int {
        if self.exports.dom().contains((source, name)) {
            self.exports[(source, name)]
        } else {
            self.nodes.len() as int
        }
    }

    pub open spec fn with_export(self, source: Text, name: Text) -> Page {
        if self.exports.dom().contains((source, name)) {
            self
        } else {
            Page {
                nodes: self.nodes.push(export_node(self.nodes.len() as int, source, name)),
                exports: self.exports.insert((source, name), self.nodes.len() as int),
                links: self.links,
            }
        }
    }

    /// The page with one more use of an export by a target.
    pub open spec fn with_use(self, target: int, package: Text, source: Text, u: Use) -> Page {
        let id = self.export_id(source, u.0);
        let page = self.with_export(source, u.0);
        let nodes = page.nodes.update(
            id,
            said(page.nodes[id], usage(u.1) + " export used by "@ + package),
        );
        Page {
            nodes: nodes.update(
                target,
                said(
                    nodes[target],
                    "uses "@ + usage(u.1) + " export `"@ + u.0 + "` from `"@ + source + "`"@,
                ),
            ),
            exports: page.exports,
            links: page.links.push(
                LinkView {
                    source: target,
                    target: id,
                    type_only: u.1,
                    detail: "`"@ + package + "` uses `"@ + u.0 + "` from `"@ + source + "`"@,
                    location: None,
                },
            ),
        }
    }

    pub open spec fn with_uses(
        self,
        target: int,
        package: Text,
        source: Text,
        uses: Seq<Use>,
        n: int,
    ) -> Page
        decreases n,
    {
        if n <= 0 {
            self
        } else {
            self.with_uses(target, package, source, uses, n - 1).with_use(
                target,
                package,
                source,
                uses[n - 1],
            )
        }
    }

    /// The page with the uses of the first `n` dependencies.
    pub open spec fn with_sources(
        self,
        a: Analysis,
        target: int,
        package: Text,
        dir: Path,
        sources: Seq<Text>,
        n: int,
    ) -> Page
        decreases n,
    {
        if n <= 0 {
            self
        } else {
            let uses = a.uses_of(dir, sources[n - 1]);
            self.with_sources(a, target, package, dir, sources, n - 1).with_uses(
                target,
                package,
                sources[n - 1],
                uses,
                uses.len() as int,
            )
        }
    }

    /// The page with the shared dependencies of a target, where it is shown and known.
    pub open spec fn with_target(self, a: Analysis, i: int) -> Page {
        let target = a.graph.targets@[i];
        let package = target.package@;
        match package_with_name(a.packages@, package) {
            Some(k) => if a.order().contains(target.node@) && a.seeds.direct_packages@.dom().contains(
                package,
            ) {
                let sources = ascending_list::<String>(a.added_to(package));
                self.with_sources(
                    a,
                    a.order().index_of(target.node@),
                    package,
                    a.packages@[k].dir@,
                    sources,
                    sources.len() as int,
                )
            } else {
                self
            },
            None => self,
        }
    }

    pub open spec fn with_targets(self, a: Analysis, n: int) -> Page
        decreases n,
    {
        if n <= 0 {
            self
        } else {
            self.with_targets(a, n - 1).with_target(a, n - 1)
        }
    }
}

/// The numbers of the first `n` nodes of a path that are shown.
pub open spec fn path_ids(order: Seq<NodeModel>, path: Seq<NodeModel>, n: int) -> Seq<int>
    decreases n,
{
    if n <= 0 {
        Seq::empty()
    } else if order.contains(path[n - 1]) {
        path_ids(order, path, n - 1).push(order.index_of(path[n - 1]))
    } else {
        path_ids(order, path, n - 1)
    }
}

impl Analysis {
    /// The paths to a node in numbers.
    pub open spec fn numbered_paths(self, n: NodeModel) -> Seq<Seq<int>> {
        let paths = reason_paths(self.reachability, n, MAX_REASON_PATHS);
        Seq::new(
            paths.len(),
            |i: int| path_ids(self.order(), paths[i], paths[i].len() as int),
        )
    }

    /// The nodes of a page with the paths to those of the graph.
    pub open spec fn with_paths(self, nodes: Seq<NodeView>) -> Seq<NodeView> {
        let order = self.order();
        Seq::new(
            nodes.len(),
            |i: int|
                if i < order.len() {
                    NodeView { paths: self.numbered_paths(order[i]), ..nodes[i] }
                } else {
                    nodes[i]
                },
        )
    }

    /// The link for an edge.
    pub open spec fn edge_link(
        self,
        root: Path,
        consumer: NodeModel,
        dependency: NodeModel,
        type_only: bool,
    ) -> LinkView {
        let reason = reason_for(
            self.graph.world(),
            self.graph.typed_registry_edges@,
            consumer,
            dependency,
            type_only,
        );
        LinkView {
            source: self.order().index_of(consumer),
            target: self.order().index_of(dependency),
            type_only,
            detail: reason.detail,
            location: reason_place(root, reason),
        }
    }

    /// The links of a node to the first `n` of these dependencies that are shown.
    pub open spec fn links_from(
        self,
        root: Path,
        consumer: NodeModel,
        list: Seq<NodeModel>,
        type_only: bool,
        n: int,
    ) -> Seq<LinkView>
        decreases n,
    {
        if n <= 0 {
            Seq::empty()
        } else if self.order().contains(list[n - 1]) {
            self.links_from(root, consumer, list, type_only, n - 1).push(
                self.edge_link(root, consumer, list[n - 1], type_only),
            )
        } else {
            self.links_from(root, consumer, list, type_only, n - 1)
        }
    }

    /// The links of the first `n` of these consumers that are shown.
    pub open spec fn links_among(
        self,
        root: Path,
        edges: EdgeMap,
        type_only: bool,
        n: int,
    ) -> Seq<LinkView>
        decreases n,
    {
        if n <= 0 {
            Seq::empty()
        } else {
            let consumer = edges.keys()[n - 1];
            let before = self.links_among(root, edges, type_only, n - 1);
            if self.order().contains(consumer) {
                let list = edges@[consumer].list();
                before + self.links_from(root, consumer, list, type_only, list.len() as int)
            } else {
                before
            }
        }
    }

    /// The page of what leads from changes to targets.
    pub open spec fn page(self, root: Path) -> Page {
        let start = Page {
            nodes: self.plain_nodes(root),
            exports: Map::empty(),
            links: Seq::empty(),
        };
        let used = start.with_targets(self, self.graph.targets@.len() as int);
        Page {
            nodes: self.with_paths(used.nodes),
            exports: used.exports,
            links: used.links + self.links_among(
                root,
                self.graph.edges,
                false,
                self.graph.edges.keys().len() as int,
            ) + self.links_among(
                root,
                self.graph.type_edges,
                true,
                self.graph.type_edges.keys().len() as int,
            ),
        }
    }
}

/// The number of a node.
fn find_id(shown: &KeySet<Node>, n: &Node) -> (r: Option<usize>)
    ensures
        match r {
            Some(i) => shown.list().contains(n@) && shown.list().index_of(n@) == i && i
                < shown.list().len(),
            None => !shown.list().contains(n@),
        },
{
    let ghost list = shown.list();
    let count = shown.len();
    match shown.position(n) {
        Some(i) => {
            proof {
                assert(list.contains(n@));
                crate::collections::ascending_is_distinct::<Node>(
                    list,
                    i as int,
                    list.index_of(n@),
                );
            }
            Some(i)
        },
        None => {
            assert(shown@.contains(n@) == list.contains(n@));
            None
        },
    }
}

pub(crate) fn added_dependency_name(detail: &str) -> (r: Option<String>)
    ensures
        r.model() == added_name(detail@),
{
    if !starts_with(detail, "added ") || !contains_text(detail, "dependency `") {
        return None;
    }
    let chars = chars_of(detail);
    let a = find_first_from(&chars, '`', 0);
    if a == chars.len() {
        return None;
    }
    let b = find_first_from(&chars, '`', a + 1);
    if b == chars.len() {
        return None;
    }
    Some(text_between(&chars, a + 1, b))
}

pub(crate) fn collect_imported_names(imported: &ImportedName, names: &mut KeySet<String>)
    ensures
        final(names)@ == old(names)@.union(imported_names(*imported)),
{
    let ghost start = names@;
    match imported {
        ImportedName::Named(name) => {
            names.insert(name.clone());
        },
        ImportedName::Namespace { members: Some(members) } => {
            names.extend(members);
        },
        ImportedName::Namespace { members: None } => {
            names.insert("*".to_owned());
        },
    }
    assert(names@ =~= start.union(imported_names(*imported)));
}

fn add_bound(bindings: &KeyMap<String, ImportBinding>, source: &String, names: &mut KeySet<String>)
    ensures
        final(names)@ == old(names)@.union(
            union_over(bindings.keys(), names_bound(*bindings, source@)),
        ),
{
    let ghost start = names@;
    let ghost keys = bindings.keys();
    let ghost f = names_bound(*bindings, source@);
    let n = bindings.len();
    let mut i: usize = 0;
    proof {
        union_over_none(keys.take(0), f);
        assert(start.union(Set::empty()) =~= start);
    }
    while i < n
        invariant
            i <= n,
            n == keys.len(),
            keys == bindings.keys(),
            f == names_bound(*bindings, source@),
            names@ == start.union(union_over(keys.take(i as int), f)),
        decreases n - i,
    {
        let binding = bindings.value_at(i);
        if binding.source == *source {
            collect_imported_names(&binding.imported, names);
        }
        proof {
            union_over_next(keys, f, i as int);
            assert(names@ =~= start.union(union_over(keys.take(i + 1), f)));
        }
        i += 1;
    }
    proof {
        union_over_all(keys, f, n as int);
    }
}

fn collect_used(
    modules: &KeyMap<FilePath, ParsedModule>,
    dir: &FilePath,
    source: &String,
    type_only: bool,
) -> (r: KeySet<String>)
    ensures
        r@ == names_used(*modules, dir@, source@, type_only),
{
    let mut names: KeySet<String> = KeySet::new();
    let ghost keys = modules.keys();
    let ghost f = names_taken(modules@, dir@, source@, type_only);
    let n = modules.len();
    let mut i: usize = 0;
    proof {
        union_over_none(keys.take(0), f);
    }
    while i < n
        invariant
            i <= n,
            n == keys.len(),
            keys == modules.keys(),
            f == names_taken(modules@, dir@, source@, type_only),
            names@ == union_over(keys.take(i as int), f),
        decreases n - i,
    {
        let ghost before = names@;
        if modules.key_at(i).starts_with(dir) {
            let module = modules.value_at(i);
            if type_only {
                add_bound(&module.type_imports, source, &mut names);
            } else {
                add_bound(&module.imports, source, &mut names);
            }
        }
        proof {
            union_over_next(keys, f, i as int);
            assert(names@ =~= before.union(f(keys[i as int])));
            assert(names@ =~= union_over(keys.take(i + 1), f));
        }
        i += 1;
    }
    proof {
        union_over_all(keys, f, n as int);
    }
    names
}

fn add_added(details: &Vec<String>, names: &mut KeySet<String>)
    ensures
        final(names)@ == old(names)@.union(union_over(details@, added_detail())),
{
    let ghost start = names@;
    let ghost f = added_detail();
    let n = details.len();
    let mut i: usize = 0;
    proof {
        union_over_none(details@.take(0), f);
        assert(start.union(Set::empty()) =~= start);
    }
    while i < n
        invariant
            i <= n,
            n == details@.len(),
            f == added_detail(),
            names@ == start.union(union_over(details@.take(i as int), f)),
        decreases n - i,
    {
        match added_dependency_name(details[i].as_str()) {
            Some(name) => {
                names.insert(name);
            },
            None => {},
        }
        proof {
            union_over_next(details@, f, i as int);
            assert(names@ =~= start.union(union_over(details@.take(i + 1), f)));
        }
        i += 1;
    }
    proof {
        union_over_all(details@, f, n as int);
    }
}

fn collect_added(inputs: &KeyMap<FilePath, Vec<String>>) -> (r: KeySet<String>)
    ensures
        r@ == union_over(inputs.keys(), added_by(inputs@)),
{
    let mut names: KeySet<String> = KeySet::new();
    let ghost keys = inputs.keys();
    let ghost f = added_by(inputs@);
    let n = inputs.len();
    let mut i: usize = 0;
    proof {
        union_over_none(keys.take(0), f);
    }
    while i < n
        invariant
            i <= n,
            n == keys.len(),
            keys == inputs.keys(),
            f == added_by(inputs@),
            names@ == union_over(keys.take(i as int), f),
        decreases n - i,
    {
        add_added(inputs.value_at(i), &mut names);
        proof {
            union_over_next(keys, f, i as int);
            assert(names@ =~= union_over(keys.take(i + 1), f));
        }
        i += 1;
    }
    proof {
        union_over_all(keys, f, n as int);
    }
    names
}

fn list_input_texts(root: &FilePath, inputs: &KeyMap<FilePath, Vec<String>>) -> (r: Vec<String>)
    ensures
        texts_of(r@) == input_texts(
            root@,
            inputs@,
            inputs.keys(),
            inputs.keys().len() as int,
        ),
{
    let mut out: Vec<String> = Vec::new();
    let ghost keys = inputs.keys();
    let n = inputs.len();
    let mut i: usize = 0;
    assert(texts_of(out@) =~= Seq::empty());
    while i < n
        invariant
            i <= n,
            n == keys.len(),
            keys == inputs.keys(),
            texts_of(out@) == input_texts(root@, inputs@, keys, i as int),
        decreases n - i,
    {
        let ghost before = texts_of(out@);
        let name = display_path(root, inputs.key_at(i));
        out.push(name);
        assert(texts_of(out@) =~= before.push(name@));
        let ghost now = texts_of(out@);
        let mut more = crate::analysis::seeds::copy_texts(inputs.value_at(i));
        let ghost said = texts_of(more@);
        out.append(&mut more);
        assert(texts_of(out@) =~= now + said);
        i += 1;
    }
    out
}

fn add_path_nodes(paths: &Vec<Vec<Node>>, shown: &mut KeySet<Node>)
    ensures
        final(shown)@ == old(shown)@.union(on_paths(path_models(paths@))),
{
    let ghost start = shown@;
    let ghost all = path_models(paths@);
    let mut i: usize = 0;
    while i < paths.len()
        invariant
            i <= paths.len(),
            all == path_models(paths@),
            forall|n: NodeModel| #[trigger]
                shown@.contains(n) == (start.contains(n) || exists|a: int, b: int|
                    0 <= a < i && 0 <= b < all[a].len() && #[trigger] all[a][b] == n),
        decreases paths.len() - i,
    {
        let path = &paths[i];
        let ghost middle = shown@;
        assert(all[i as int] == models(path@));
        let mut j: usize = 0;
        while j < path.len()
            invariant
                j <= path.len(),
                all[i as int] == models(path@),
                forall|n: NodeModel| #[trigger]
                    shown@.contains(n) == (middle.contains(n) || exists|b: int|
                        0 <= b < j && #[trigger] all[i as int][b] == n),
            decreases path.len() - j,
        {
            let ghost before = shown@;
            shown.insert(path[j].dup());
            proof {
                assert(all[i as int][j as int] == path@[j as int]@);
                assert forall|n: NodeModel| #[trigger]
                    shown@.contains(n) == (middle.contains(n) || exists|b: int|
                        0 <= b < j + 1 && #[trigger] all[i as int][b] == n) by {
                    assert(before.contains(n) == (middle.contains(n) || exists|b: int|
                        0 <= b < j && #[trigger] all[i as int][b] == n));
                    assert(shown@.contains(n) == (before.contains(n) || all[i as int][j as int]
                        == n));
                }
            }
            j += 1;
        }
        proof {
            assert forall|n: NodeModel| #[trigger]
                shown@.contains(n) == (start.contains(n) || exists|a: int, b: int|
                    0 <= a < i + 1 && 0 <= b < all[a].len() && #[trigger] all[a][b] == n) by {
                assert(middle.contains(n) == (start.contains(n) || exists|a: int, b: int|
                    0 <= a < i && 0 <= b < all[a].len() && #[trigger] all[a][b] == n));
                if exists|b: int| 0 <= b < j && #[trigger] all[i as int][b] == n {
                    let b = choose|b: int| 0 <= b < j && #[trigger] all[i as int][b] == n;
                    assert(all[i as int][b] == n);
                }
            }
        }
        i += 1;
    }
    assert(shown@ =~= start.union(on_paths(all)));
}

impl Analysis {
    fn collect_shown(&self) -> (r: KeySet<Node>)
        ensures
            r@ == self.shown_nodes(),
            r.list() == self.order(),
    {
        let mut shown: KeySet<Node> = KeySet::new();
        let mut i: usize = 0;
        while i < self.graph.targets.len()
            invariant
                i <= self.graph.targets.len(),
                forall|n: NodeModel| #[trigger]
                    shown@.contains(n) == (exists|k: int|
                        0 <= k < i && (#[trigger] self.led_to(k)).contains(n)),
            decreases self.graph.targets.len() - i,
        {
            let ghost before = shown@;
            let target = &self.graph.targets[i];
            let hit = self.reachability.reached.contains(&target.node)
                || self.seeds.direct_packages.contains_key(&target.package);
            assert(hit == self.is_hit(i as int));
            if hit {
                shown.insert(target.node.dup());
                let paths = self.graph.paths_to(
                    &self.reachability,
                    &target.node,
                    MAX_REASON_PATHS,
                );
                add_path_nodes(&paths, &mut shown);
            }
            proof {
                assert(shown@ =~= before.union(self.led_to(i as int)));
                assert forall|n: NodeModel| #[trigger]
                    shown@.contains(n) == (exists|k: int|
                        0 <= k < i + 1 && (#[trigger] self.led_to(k)).contains(n)) by {
                    assert(before.contains(n) == (exists|k: int|
                        0 <= k < i && (#[trigger] self.led_to(k)).contains(n)));
                }
            }
            i += 1;
        }
        let count = shown.len();
        proof {
            assert(shown@ =~= self.shown_nodes());
            ascending_list_is::<Node>(shown.list(), self.shown_nodes());
        }
        shown
    }

    pub(crate) fn find_kind(&self, n: &Node) -> (r: NodeKind)
        ensures
            r == self.kind_of(n@),
    {
        if is_target_file(&n.file) {
            NodeKind::Target
        } else if self.changed().contains(n) {
            NodeKind::Seed
        } else if self.reachability.reached.contains(n) {
            NodeKind::Affected
        } else {
            NodeKind::Normal
        }
    }

    pub(crate) fn name_package(&self, n: &Node) -> (r: String)
        ensures
            r@ == self.package_of(n@),
    {
        if is_target_file(&n.file) {
            n.symbol.clone()
        } else {
            match package_for_path(&self.packages, &n.file) {
                Some(package) => package.name.clone(),
                None => "".to_owned(),
            }
        }
    }

    fn list_inputs_of(&self, root: &FilePath, n: &Node) -> (r: Vec<String>)
        ensures
            texts_of(r@) == self.inputs_of(root@, n@),
    {
        if is_target_file(&n.file) {
            match self.seeds.direct_packages.get(&n.symbol) {
                Some(inputs) => {
                    return list_input_texts(root, inputs);
                },
                None => {},
            }
        }
        let out: Vec<String> = Vec::new();
        assert(texts_of(out@) =~= Seq::empty());
        out
    }

    fn list_nodes(&self, root: &FilePath, shown: &KeySet<Node>) -> (r: Vec<GraphNode>)
        requires
            shown.list() == self.order(),
        ensures
            node_views(r@) == self.plain_nodes(root@),
    {
        let ghost order = self.order();
        let ghost all = self.plain_nodes(root@);
        let n = shown.len();
        let mut out: Vec<GraphNode> = Vec::new();
        let mut i: usize = 0;
        while i < n
            invariant
                i <= n,
                n == order.len(),
                order == self.order(),
                shown.list() == order,
                all == self.plain_nodes(root@),
                out.len() == i,
                node_views(out@) =~= all.take(i as int),
            decreases n - i,
        {
            let node = shown.at(i);
            let paths: Vec<Vec<usize>> = Vec::new();
            assert(id_lists(paths@) =~= Seq::empty());
            let item = GraphNode {
                id: i,
                label: display_node(root, node),
                file: display_path(root, &node.file),
                symbol: node.symbol.clone(),
                package: self.name_package(node),
                kind: self.find_kind(node),
                details: self.list_inputs_of(root, node),
                paths,
            };
            let ghost v = item@;
            let ghost before = node_views(out@);
            out.push(item);
            proof {
                assert(v == self.plain_node(root@, order[i as int], i as int));
                assert(node_views(out@) =~= before.push(v));
            }
            i += 1;
        }
        assert(all.take(n as int) =~= all);
        out
    }
}

/// A page under construction.
struct PageBuilder {
    nodes: Vec<GraphNode>,
    exports: KeyMap<(String, String), usize>,
    links: Vec<GraphLink>,
}

spec fn export_ids(m: Map<(Text, Text), usize>) -> Map<(Text, Text), int> {
    Map::new(|k: (Text, Text)| m.dom().contains(k), |k: (Text, Text)| m[k] as int)
}

impl PageBuilder {
    spec fn page(self) -> Page {
        Page {
            nodes: node_views(self.nodes@),
            exports: export_ids(self.exports@),
            links: link_views(self.links@),
        }
    }

    /// The exports have nodes.
    spec fn is_sound(self) -> bool {
        forall|k: (Text, Text)|
            self.exports@.dom().contains(k) ==> #[trigger] self.exports@[k] < self.nodes@.len()
    }

    fn say(&mut self, id: usize, detail: String)
        requires
            id < old(self).nodes@.len(),
        ensures
            final(self).nodes@.len() == old(self).nodes@.len(),
            final(self).exports == old(self).exports,
            final(self).links == old(self).links,
            node_views(final(self).nodes@) == node_views(old(self).nodes@).update(
                id as int,
                said(node_views(old(self).nodes@)[id as int], detail@),
            ),
    {
        let ghost before = self.nodes@;
        let ghost views = node_views(before);
        self.nodes[id].details.push(detail);
        proof {
            let after = self.nodes@;
            assert(texts_of(after[id as int].details@) =~= texts_of(
                before[id as int].details@,
            ).push(detail@));
            assert(views[id as int] == before[id as int]@);
            assert forall|i: int| 0 <= i < after.len() implies #[trigger] node_views(after)[i]
                == views.update(id as int, said(views[id as int], detail@))[i] by {
                if i == id {
                    assert(after[i]@ == said(before[i]@, detail@));
                } else {
                    assert(after[i] == before[i]);
                }
            }
            assert(node_views(after) =~= views.update(
                id as int,
                said(views[id as int], detail@),
            ));
        }
    }

    /// The number of the node of an export, which is added where it is new.
    fn export(&mut self, source: &String, name: &String) -> (id: usize)
        requires
            old(self).is_sound(),
        ensures
            final(self).is_sound(),
            final(self).page() == old(self).page().with_export(source@, name@),
            id == old(self).page().export_id(source@, name@),
            id < final(self).nodes@.len(),
            final(self).nodes@.len() >= old(self).nodes@.len(),
    {
        let ghost start = *self;
        let key = (source.clone(), name.clone());
        let ghost k = key.model();
        match self.exports.get(&key) {
            Some(id) => {
                return *id;
            },
            None => {},
        }
        let id = self.nodes.len();
        let paths: Vec<Vec<usize>> = Vec::new();
        let details: Vec<String> = Vec::new();
        proof {
            assert(id_lists(paths@) =~= Seq::empty());
            assert(texts_of(details@) =~= Seq::empty());
        }
        let item = GraphNode {
            id,
            label: join3(source.as_str(), "#", name.as_str()),
            file: source.clone(),
            symbol: name.clone(),
            package: source.clone(),
            kind: NodeKind::Dependency,
            details,
            paths,
        };
        let ghost v = item@;
        self.exports.insert(key, id);
        self.nodes.push(item);
        proof {
            assert(v == export_node(id as int, source@, name@));
            assert(node_views(self.nodes@) =~= node_views(start.nodes@).push(v));
            assert(export_ids(self.exports@) =~= export_ids(start.exports@).insert(k, id as int));
            assert forall|k: (Text, Text)| self.exports@.dom().contains(k) implies #[trigger] self.exports@[k]
                < self.nodes@.len() by {
                if start.exports@.dom().contains(k) {
                    assert(start.exports@[k] < start.nodes@.len());
                }
            }
        }
        id
    }

    fn add_use(&mut self, target: usize, package: &str, source: &String, name: &String, type_only: bool)
        requires
            old(self).is_sound(),
            target < old(self).nodes@.len(),
        ensures
            final(self).is_sound(),
            final(self).nodes@.len() >= old(self).nodes@.len(),
            final(self).page() == old(self).page().with_use(
                target as int,
                package@,
                source@,
                (name@, type_only),
            ),
    {
        let id = self.export(source, name);
        let ghost page = self.page();
        let usage = if type_only {
            "type"
        } else {
            "runtime"
        };
        self.say(id, join3(usage, " export used by ", package));
        let mut used = join3("uses ", usage, " export `");
        used.append(name.as_str());
        used.append("` from `");
        used.append(source.as_str());
        used.append("`");
        self.say(target, used);
        let mut detail = join3("`", package, "` uses `");
        detail.append(name.as_str());
        detail.append("` from `");
        detail.append(source.as_str());
        detail.append("`");
        let link = GraphLink { source: target, target: id, type_only, detail, location: None };
        let ghost v = link@;
        let ghost before = link_views(self.links@);
        self.links.push(link);
        assert(link_views(self.links@) =~= before.push(v));
    }

    fn add_uses(
        &mut self,
        target: usize,
        package: &str,
        source: &String,
        names: &KeySet<String>,
        type_only: bool,
    )
        requires
            old(self).is_sound(),
            target < old(self).nodes@.len(),
        ensures
            final(self).is_sound(),
            final(self).nodes@.len() >= old(self).nodes@.len(),
            final(self).page() == old(self).page().with_uses(
                target as int,
                package@,
                source@,
                with_flag(ascending_list::<String>(names@), type_only),
                ascending_list::<String>(names@).len() as int,
            ),
    {
        let ghost start = self.page();
        let n = names.len();
        let ghost list = names.list();
        proof {
            ascending_list_is::<String>(list, names@);
        }
        let ghost uses = with_flag(list, type_only);
        let mut i: usize = 0;
        while i < n
            invariant
                i <= n,
                n == list.len(),
                list == names.list(),
                uses == with_flag(list, type_only),
                self.is_sound(),
                target < self.nodes@.len(),
                self.nodes@.len() >= old(self).nodes@.len(),
                self.page() == start.with_uses(
                    target as int,
                    package@,
                    source@,
                    uses,
                    i as int,
                ),
            decreases n - i,
        {
            assert(uses[i as int] == (list[i as int], type_only));
            self.add_use(target, package, source, names.at(i), type_only);
            i += 1;
        }
    }
}

/// Uses one behind the other.
proof fn uses_in_turn(
    page: Page,
    target: int,
    package: Text,
    source: Text,
    a: Seq<Use>,
    b: Seq<Use>,
    n: int,
)
    requires
        0 <= n <= b.len(),
    ensures
        page.with_uses(target, package, source, a + b, a.len() + n) == page.with_uses(
            target,
            package,
            source,
            a,
            a.len() as int,
        ).with_uses(target, package, source, b, n),
    decreases n,
{
    if n > 0 {
        uses_in_turn(page, target, package, source, a, b, n - 1);
        assert((a + b)[a.len() + n - 1] == b[n - 1]);
    } else {
        uses_prefix(page, target, package, source, a, b, a.len() as int);
    }
}

proof fn uses_prefix(
    page: Page,
    target: int,
    package: Text,
    source: Text,
    a: Seq<Use>,
    b: Seq<Use>,
    n: int,
)
    requires
        0 <= n <= a.len(),
    ensures
        page.with_uses(target, package, source, a + b, n) == page.with_uses(
            target,
            package,
            source,
            a,
            n,
        ),
    decreases n,
{
    if n > 0 {
        uses_prefix(page, target, package, source, a, b, n - 1);
        assert((a + b)[n - 1] == a[n - 1]);
    }
}

fn without(names: &KeySet<String>, other: &KeySet<String>) -> (r: KeySet<String>)
    ensures
        r@ == names@.difference(other@),
{
    let ghost list = names.list();
    let n = names.len();
    let mut out: KeySet<String> = KeySet::new();
    let mut i: usize = 0;
    while i < n
        invariant
            i <= n,
            n == list.len(),
            list == names.list(),
            forall|x: Text| #[trigger]
                out@.contains(x) == (!other@.contains(x) && exists|k: int|
                    0 <= k < i && #[trigger] list[k] == x),
        decreases n - i,
    {
        let ghost before = out@;
        let name = names.at(i);
        if !other.contains(name) {
            out.insert(name.clone());
        }
        proof {
            assert forall|x: Text| #[trigger]
                out@.contains(x) == (!other@.contains(x) && exists|k: int|
                    0 <= k < i + 1 && #[trigger] list[k] == x) by {
                assert(before.contains(x) == (!other@.contains(x) && exists|k: int|
                    0 <= k < i && #[trigger] list[k] == x));
                assert(list[i as int] == name@);
            }
        }
        i += 1;
    }
    assert(out@ =~= names@.difference(other@));
    out
}

impl Analysis {
    fn add_source(&self, page: &mut PageBuilder, target: usize, package: &str, dir: &FilePath, source: &String)
        requires
            old(page).is_sound(),
            target < old(page).nodes@.len(),
        ensures
            final(page).is_sound(),
            final(page).nodes@.len() >= old(page).nodes@.len(),
            final(page).page() == old(page).page().with_uses(
                target as int,
                package@,
                source@,
                self.uses_of(dir@, source@),
                self.uses_of(dir@, source@).len() as int,
            ),
    {
        let ghost start = page.page();
        let runtime = collect_used(&self.graph.modules, dir, source, false);
        let typed = collect_used(&self.graph.modules, dir, source, true);
        let types = without(&typed, &runtime);
        page.add_uses(target, package, source, &runtime, false);
        page.add_uses(target, package, source, &types, true);
        proof {
            let a = with_flag(ascending_list::<String>(runtime@), false);
            let b = with_flag(ascending_list::<String>(types@), true);
            assert(self.uses_of(dir@, source@) == a + b);
            uses_in_turn(start, target as int, package@, source@, a, b, b.len() as int);
        }
    }

    fn add_sources(
        &self,
        page: &mut PageBuilder,
        target: usize,
        package: &str,
        dir: &FilePath,
        sources: &KeySet<String>,
    )
        requires
            old(page).is_sound(),
            target < old(page).nodes@.len(),
        ensures
            final(page).is_sound(),
            final(page).nodes@.len() >= old(page).nodes@.len(),
            final(page).page() == old(page).page().with_sources(
                *self,
                target as int,
                package@,
                dir@,
                ascending_list::<String>(sources@),
                ascending_list::<String>(sources@).len() as int,
            ),
    {
        let ghost start = page.page();
        let n = sources.len();
        let ghost list = sources.list();
        proof {
            ascending_list_is::<String>(list, sources@);
        }
        let mut i: usize = 0;
        while i < n
            invariant
                i <= n,
                n == list.len(),
                list == sources.list(),
                page.is_sound(),
                target < page.nodes@.len(),
                page.nodes@.len() >= old(page).nodes@.len(),
                page.page() == start.with_sources(
                    *self,
                    target as int,
                    package@,
                    dir@,
                    list,
                    i as int,
                ),
            decreases n - i,
        {
            self.add_source(page, target, package, dir, sources.at(i));
            i += 1;
        }
    }

    fn add_target(&self, page: &mut PageBuilder, shown: &KeySet<Node>, i: usize)
        requires
            old(page).is_sound(),
            shown.list() == self.order(),
            old(page).nodes@.len() >= self.order().len(),
            i < self.graph.targets@.len(),
        ensures
            final(page).is_sound(),
            final(page).nodes@.len() >= old(page).nodes@.len(),
            final(page).page() == old(page).page().with_target(*self, i as int),
    {
        let target = &self.graph.targets[i];
        let id = match find_id(shown, &target.node) {
            Some(id) => id,
            None => {
                return;
            },
        };
        let inputs = match self.seeds.direct_packages.get(&target.package) {
            Some(inputs) => inputs,
            None => {
                return;
            },
        };
        let sources = collect_added(inputs);
        match find_named(&self.packages, &target.package) {
            Some(k) => {
                self.add_sources(
                    page,
                    id,
                    target.package.as_str(),
                    &self.packages[k].dir,
                    &sources,
                );
            },
            None => {},
        }
    }

    fn number_path(&self, shown: &KeySet<Node>, path: &Vec<Node>) -> (r: Vec<usize>)
        requires
            shown.list() == self.order(),
        ensures
            id_list(r@) == path_ids(self.order(), models(path@), path@.len() as int),
    {
        let ghost order = self.order();
        let ghost all = models(path@);
        let mut out: Vec<usize> = Vec::new();
        let mut i: usize = 0;
        assert(id_list(out@) =~= Seq::empty());
        while i < path.len()
            invariant
                i <= path.len(),
                order == self.order(),
                shown.list() == order,
                all == models(path@),
                id_list(out@) == path_ids(order, all, i as int),
            decreases path.len() - i,
        {
            assert(all[i as int] == path@[i as int]@);
            match find_id(shown, &path[i]) {
                Some(id) => {
                    let ghost before = id_list(out@);
                    out.push(id);
                    assert(id_list(out@) =~= before.push(id as int));
                },
                None => {},
            }
            i += 1;
        }
        out
    }

    fn number_paths(&self, shown: &KeySet<Node>, n: &Node) -> (r: Vec<Vec<usize>>)
        requires
            shown.list() == self.order(),
        ensures
            id_lists(r@) == self.numbered_paths(n@),
    {
        let paths = self.graph.paths_to(&self.reachability, n, MAX_REASON_PATHS);
        let ghost found = path_models(paths@);
        let ghost all = self.numbered_paths(n@);
        let mut out: Vec<Vec<usize>> = Vec::new();
        let mut i: usize = 0;
        while i < paths.len()
            invariant
                i <= paths.len(),
                shown.list() == self.order(),
                found == path_models(paths@),
                found == reason_paths(self.reachability, n@, MAX_REASON_PATHS),
                all == self.numbered_paths(n@),
                id_lists(out@) =~= all.take(i as int),
            decreases paths.len() - i,
        {
            let ids = self.number_path(shown, &paths[i]);
            let ghost v = id_list(ids@);
            let ghost before = id_lists(out@);
            out.push(ids);
            proof {
                assert(found[i as int] == models(paths@[i as int]@));
                assert(found[i as int].len() == paths@[i as int]@.len());
                assert(id_lists(out@) =~= before.push(v));
            }
            i += 1;
        }
        assert(all.take(i as int) =~= all);
        out
    }

    fn set_paths(&self, shown: &KeySet<Node>, nodes: &mut Vec<GraphNode>)
        requires
            shown.list() == self.order(),
            old(nodes)@.len() >= self.order().len(),
        ensures
            node_views(final(nodes)@) == self.with_paths(node_views(old(nodes)@)),
    {
        let ghost start = node_views(nodes@);
        let ghost order = self.order();
        let ghost all = self.with_paths(start);
        let n = shown.len();
        let mut i: usize = 0;
        while i < n
            invariant
                i <= n,
                n == order.len(),
                order == self.order(),
                shown.list() == order,
                all == self.with_paths(start),
                nodes@.len() == start.len(),
                start.len() >= n,
                forall|k: int| 0 <= k < i ==> #[trigger] node_views(nodes@)[k] == all[k],
                forall|k: int| i <= k < start.len() ==> #[trigger] node_views(nodes@)[k] == start[k],
            decreases n - i,
        {
            let paths = self.number_paths(shown, shown.at(i));
            let ghost before = nodes@;
            let ghost v = id_lists(paths@);
            nodes[i].paths = paths;
            proof {
                assert forall|k: int| 0 <= k < nodes@.len() implies #[trigger] node_views(nodes@)[k]
                    == if k == i {
                    NodeView { paths: v, ..node_views(before)[k] }
                } else {
                    node_views(before)[k]
                } by {
                    if k != i {
                        assert(nodes@[k] == before[k]);
                    }
                }
                assert(node_views(before)[i as int] == start[i as int]);
            }
            i += 1;
        }
        assert(node_views(nodes@) =~= all);
    }

    fn add_links_from(
        &self,
        root: &FilePath,
        shown: &KeySet<Node>,
        consumer: &Node,
        source: usize,
        list: &KeySet<Node>,
        type_only: bool,
        links: &mut Vec<GraphLink>,
    )
        requires
            shown.list() == self.order(),
            source == self.order().index_of(consumer@),
        ensures
            link_views(final(links)@) == link_views(old(links)@) + self.links_from(
                root@,
                consumer@,
                list.list(),
                type_only,
                list.list().len() as int,
            ),
    {
        let ghost start = link_views(links@);
        let ghost all = list.list();
        let n = list.len();
        let mut i: usize = 0;
        assert(link_views(links@) =~= start + self.links_from(root@, consumer@, all, type_only, 0));
        while i < n
            invariant
                i <= n,
                n == all.len(),
                all == list.list(),
                shown.list() == self.order(),
                source == self.order().index_of(consumer@),
                link_views(links@) == start + self.links_from(
                    root@,
                    consumer@,
                    all,
                    type_only,
                    i as int,
                ),
            decreases n - i,
        {
            let dependency = list.at(i);
            match find_id(shown, dependency) {
                Some(target) => {
                    let explanation = self.graph.edge_explanation(consumer, dependency, type_only);
                    let location = display_edge_location(root, &explanation);
                    let link = GraphLink {
                        source,
                        target,
                        type_only,
                        detail: explanation.detail,
                        location,
                    };
                    let ghost v = link@;
                    let ghost before = link_views(links@);
                    links.push(link);
                    proof {
                        assert(v == self.edge_link(root@, consumer@, all[i as int], type_only));
                        assert(link_views(links@) =~= before.push(v));
                        assert(link_views(links@) =~= start + self.links_from(
                            root@,
                            consumer@,
                            all,
                            type_only,
                            i + 1,
                        ));
                    }
                },
                None => {},
            }
            i += 1;
        }
    }

    fn add_links(
        &self,
        root: &FilePath,
        shown: &KeySet<Node>,
        edges: &EdgeMap,
        type_only: bool,
        links: &mut Vec<GraphLink>,
    )
        requires
            shown.list() == self.order(),
        ensures
            link_views(final(links)@) == link_views(old(links)@) + self.links_among(
                root@,
                *edges,
                type_only,
                edges.keys().len() as int,
            ),
    {
        let ghost start = link_views(links@);
        let ghost keys = edges.keys();
        let n = edges.len();
        let mut i: usize = 0;
        assert(link_views(links@) =~= start + self.links_among(root@, *edges, type_only, 0));
        while i < n
            invariant
                i <= n,
                n == keys.len(),
                keys == edges.keys(),
                shown.list() == self.order(),
                link_views(links@) == start + self.links_among(
                    root@,
                    *edges,
                    type_only,
                    i as int,
                ),
            decreases n - i,
        {
            let consumer = edges.key_at(i);
            match find_id(shown, consumer) {
                Some(source) => {
                    self.add_links_from(
                        root,
                        shown,
                        consumer,
                        source,
                        edges.value_at(i),
                        type_only,
                        links,
                    );
                    assert(link_views(links@) =~= start + self.links_among(
                        root@,
                        *edges,
                        type_only,
                        i + 1,
                    ));
                },
                None => {},
            }
            i += 1;
        }
    }
}

/// The view of what leads from changes to targets.
pub fn build_graph_view(root: &FilePath, analysis: &Analysis) -> (r: GraphView)
    ensures
        node_views(r.nodes@) == analysis.page(root@).nodes,
        link_views(r.links@) == analysis.page(root@).links,
        r.package is None,
        r.base@ == analysis.base@,
        r.task@ == label_of(analysis.task),
        r.scope@ == "affected"@,
{
    let shown = analysis.collect_shown();
    let ghost order = analysis.order();
    let nodes = analysis.list_nodes(root, &shown);
    let mut page = PageBuilder { nodes, exports: KeyMap::new(), links: Vec::new() };
    let ghost start = Page {
        nodes: analysis.plain_nodes(root@),
        exports: Map::empty(),
        links: Seq::empty(),
    };
    proof {
        assert(export_ids(page.exports@) =~= Map::empty());
        assert(link_views(page.links@) =~= Seq::empty());
        assert(node_views(page.nodes@).len() == page.nodes@.len());
    }
    let mut i: usize = 0;
    while i < analysis.graph.targets.len()
        invariant
            i <= analysis.graph.targets.len(),
            shown.list() == order,
            order == analysis.order(),
            page.is_sound(),
            page.nodes@.len() >= order.len(),
            page.page() == start.with_targets(*analysis, i as int),
        decreases analysis.graph.targets.len() - i,
    {
        analysis.add_target(&mut page, &shown, i);
        i += 1;
    }
    let PageBuilder { mut nodes, exports, mut links } = page;
    analysis.set_paths(&shown, &mut nodes);
    analysis.add_links(root, &shown, &analysis.graph.edges, false, &mut links);
    analysis.add_links(root, &shown, &analysis.graph.type_edges, true, &mut links);
    GraphView {
        package: None,
        base: analysis.base.clone(),
        task: task_label(analysis.task).to_owned(),
        scope: "affected".to_owned(),
        nodes,
        links,
    }
}

} // verus!
