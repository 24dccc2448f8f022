//! From changed files to the symbols and packages that they concern.
pub mod change_laws;
pub mod describe;
pub mod laws;
pub mod seeds;
pub mod symbols;

pub use seeds::{seed_package_input, ChangeSeeds};
pub use symbols::add_changed_symbols;

use vstd::prelude::*;

use crate::analysis::describe::{describe_direct_input, description};
use crate::analysis::seeds::{
    apply_lockfile_fallback, everywhere, no_seeds, note, note_everywhere, noted, with_fallback,
    with_package, SeedsModel,
};
use crate::analysis::symbols::{add_all_symbols, all_runtime, all_types, changed_runtime, changed_types};
use crate::collections::{ascending_list, ascending_list_is, KeySet};
use crate::git::{ChangeKind, ChangedFile, KindModel};
use crate::graph::links::{edges_in, EdgeMap};
use crate::graph::model::DependencyGraph;
use crate::graph::node::{Node, NodeModel};
use crate::graph::resolve::{normal, normalize_path};
use crate::graph::targets::{has_target, target_models, target_of};
use crate::order::Key;
use crate::package_manager::{
    manager_of, package_manager_for, str_view, LockfileImpact, PackageManager,
};
use crate::parser::assemble::{is_test_path, parsed};
use crate::parser::syntax::is_source_extension;
use crate::parser::{
    is_source_file, is_test_file, parse_module, ParseError, ParsedModule, MODULE_INIT,
};
use crate::path::{extension_of, joined_path, name_of, parent_of, FilePath};
use crate::pnpm::lockfile::{revision_model, PnpmLockfile};
use crate::pnpm::package_importers;
use crate::text::{same, starts_with};
use crate::words::texts_of;
use crate::workspace::owner::{owner_of, package_for_path, relative, relative_to, Path};
use crate::workspace::roots::{find_named, package_with_name};
use crate::workspace::Package;

verus! {

pub type Text = Seq<char>;

/// A changed file with its text at the base revision, under the name it had there, and its text
/// now. Of a lockfile of pnpm there is what the texts read as, too.
pub struct ChangeTexts {
    pub change: ChangedFile,
    pub before: Option<String>,
    pub after: Option<String>,
    pub old_lockfile: Option<Result<PnpmLockfile, String>>,
    pub new_lockfile: Option<Result<PnpmLockfile, String>>,
}

/// A change whose texts matter: of a module, a package manifest or a lockfile that is modeled.
pub open spec fn has_texts(path: Path) -> bool {
    is_source_extension(extension_of(path)) || match name_of(path) {
        Some(name) => name == "package.json"@ || manager_of(name) == Some(PackageManager::Pnpm),
        None => false,
    }
}

/// Whether the texts of a change have to be read.
pub fn needs_texts(change: &ChangedFile) -> (r: bool)
    ensures
        r == has_texts(change.path@),
{
    if is_source_file(&change.path) {
        return true;
    }
    match change.path.file_name() {
        Some(name) => same(name.as_str(), "package.json") || match package_manager_for(
            name.as_str(),
        ) {
            Some(PackageManager::Pnpm) => true,
            _ => false,
        },
        None => false,
    }
}

/// Whether the texts of a change have to be read as lockfiles of pnpm.
pub fn needs_lockfile(change: &ChangedFile) -> (r: bool)
    ensures
        r == (match name_of(change.path@) {
            Some(name) => manager_of(name) == Some(PackageManager::Pnpm),
            None => false,
        }),
{
    match change.path.file_name() {
        Some(name) => match package_manager_for(name.as_str()) {
            Some(PackageManager::Pnpm) => true,
            _ => false,
        },
        None => false,
    }
}

/// Where a changed file was at the base revision.
pub open spec fn old_location(root: Path, path: Path, kind: KindModel) -> Path {
    joined_path(
        root,
        match kind {
            KindModel::Renamed(old_path) => old_path,
            _ => relative_to(path, root),
        },
    )
}

impl ChangeTexts {
    pub open spec fn path(self) -> Path {
        self.change.path@
    }

    pub open spec fn kind(self) -> KindModel {
        self.change.kind@
    }

    pub open spec fn is_source(self) -> bool {
        is_source_extension(extension_of(self.path()))
    }

    /// The file was a module at the base revision.
    pub open spec fn was_module(self) -> bool {
        self.is_source() && !(self.kind() is Added) && self.before is Some
    }

    pub open spec fn name(self) -> Text {
        match name_of(self.path()) {
            Some(name) => name,
            None => ""@,
        }
    }

    /// What is said of the change where it concerns a whole package.
    pub open spec fn description(self) -> Seq<Text> {
        description(name_of(self.path()), self.kind(), self.before.model(), self.after.model())
    }
}

/// What an analysis of changes rests on.
pub ghost struct Ground {
    pub root: Path,
    pub packages: Seq<Package>,
    pub graph: DependencyGraph,
    pub base: Option<DependencyGraph>,
}

/// Something depends on a node, at run time or for types.
pub open spec fn is_referenced(graph: DependencyGraph, n: NodeModel) -> bool {
    is_dependency(graph.edges, n) || is_dependency(graph.type_edges, n)
}

pub open spec fn is_dependency(edges: EdgeMap, n: NodeModel) -> bool {
    exists|consumer: NodeModel| #[trigger] edges_in(edges).contains((consumer, n))
}

/// A file that is an input of a package's build.
pub open spec fn is_build_input(name: Text) -> bool {
    name == "package.json"@ || name == "wrangler.json"@ || name == "wrangler.jsonc"@ || name
        == "tsconfig.json"@ || name == "Cargo.toml"@ || name == "build.rs"@
        || "vite.config."@.is_prefix_of(name)
}

/// The lockfile change that a package manager attributes to packages.
pub open spec fn with_lockfile(
    s: SeedsModel,
    ground: Ground,
    path: Path,
    names: Seq<Text>,
    detail: Text,
    n: int,
) -> (SeedsModel, bool)
    decreases n,
{
    if n <= 0 {
        (s, false)
    } else {
        let before = with_lockfile(s, ground, path, names, detail, n - 1);
        if before.1 {
            before
        } else {
            match package_with_name(ground.packages, names[n - 1]) {
                Some(i) => (
                    with_package(
                        before.0,
                        ground.graph,
                        ground.packages,
                        ground.packages[i],
                        path,
                        seq![detail],
                    ),
                    false,
                ),
                None => (with_fallback(before.0, ground.graph, path, UNKNOWN_IMPORTER@), true),
            }
        }
    }
}

pub const UNKNOWN_IMPORTER: &'static str = "a changed importer does not map to a current workspace package";

impl Ground {
    /// The nodes of a changed file that is no module but that something depends on.
    pub open spec fn input_nodes(self, c: ChangeTexts) -> Set<NodeModel> {
        Set::new(
            |n: NodeModel|
                (n == (normal(self.graph.disk, c.path()), MODULE_INIT@) || match c.kind() {
                    KindModel::Renamed(old_path) => n == (
                        normal(self.graph.disk, joined_path(self.root, old_path)),
                        MODULE_INIT@,
                    ),
                    _ => false,
                }) && is_referenced(self.graph, n),
        )
    }

    /// The package manager whose lockfile at the root this is.
    pub open spec fn manager(self, c: ChangeTexts) -> Option<PackageManager> {
        if parent_of(c.path()) == Some(self.root) {
            manager_of(c.name())
        } else {
            None
        }
    }

    pub open spec fn after_lockfile(
        self,
        s: SeedsModel,
        c: ChangeTexts,
        manager: PackageManager,
    ) -> SeedsModel {
        let owners = package_importers(
            self.graph.disk,
            self.root,
            self.packages,
            self.packages.len() as int,
        );
        match manager.impact(
            revision_model(c.old_lockfile),
            revision_model(c.new_lockfile),
            owners,
        ) {
            Ok(changed) => {
                let names = ascending_list::<String>(changed);
                with_lockfile(s, self, c.path(), names, manager.detail(), names.len() as int).0
            },
            Err(reason) => with_fallback(s, self.graph, c.path(), reason),
        }
    }

    /// A manifest that is or was one, and that is not the one of a known package.
    pub open spec fn is_stray_manifest(self, c: ChangeTexts) -> bool {
        &&& c.name() == "package.json"@ || (match c.kind() {
            KindModel::Renamed(old_path) => name_of(old_path) == Some("package.json"@),
            _ => false,
        })
        &&& !(match owner_of(self.packages, c.path()) {
            Some(i) => parent_of(c.path()) == Some(self.packages[i].dir@),
            None => false,
        })
    }

    /// A file whose change concerns the whole package that it belongs to.
    pub open spec fn concerns_package(self, c: ChangeTexts, package: Package) -> bool {
        is_build_input(c.name()) || (extension_of(c.path()) == Some("rs"@) && relative_to(
            c.path(),
            package.dir@,
        ).contains("src"@))
    }

    /// The seeds of a changed file that is no module.
    pub open spec fn after_input(self, start: SeedsModel, c: ChangeTexts) -> SeedsModel {
        let s = SeedsModel {
            nodes: start.nodes.union(self.input_nodes(c)),
            type_nodes: start.type_nodes.union(self.input_nodes(c)),
            ..start
        };
        match self.manager(c) {
            Some(manager) => self.after_lockfile(s, c, manager),
            None => if self.is_stray_manifest(c) {
                let targets = target_models(self.graph.targets@);
                SeedsModel {
                    direct: everywhere(
                        s.direct,
                        targets,
                        c.path(),
                        c.description(),
                        targets.len() as int,
                    ),
                    ..s
                }
            } else {
                match owner_of(self.packages, c.path()) {
                    Some(i) => if self.concerns_package(c, self.packages[i]) {
                        with_package(
                            s,
                            self.graph,
                            self.packages,
                            self.packages[i],
                            c.path(),
                            c.description(),
                        )
                    } else {
                        s
                    },
                    None => s,
                }
            },
        }
    }

    /// A source file of a target that nothing in the graph leads to.
    pub open spec fn is_unlinked(self, c: ChangeTexts, package: Package) -> bool {
        let inside = relative_to(c.path(), package.dir@);
        &&& !is_test_path(inside)
        &&& inside.contains("src"@) || package.entrypoint.model() == Some(c.path())
        &&& has_target(target_models(self.graph.targets@), package.name@)
        &&& !self.graph.edges@.dom().contains(target_of(package.name@))
    }

    pub open spec fn noted_source(self, s: SeedsModel, c: ChangeTexts) -> SeedsModel {
        match owner_of(self.packages, c.path()) {
            Some(i) => if self.is_unlinked(c, self.packages[i]) {
                SeedsModel {
                    direct: noted(s.direct, self.packages[i].name@, c.path(), c.description()),
                    ..s
                }
            } else {
                s
            },
            None => s,
        }
    }

    /// The module at the old place in the graph of the base revision.
    pub open spec fn base_module(self, path: Path) -> Option<ParsedModule> {
        match self.base {
            Some(graph) => if graph.modules@.dom().contains(path) {
                Some(graph.modules@[path])
            } else {
                None
            },
            None => None,
        }
    }

    /// The seeds of a changed module, given what it was at the base revision.
    pub open spec fn after_source(
        self,
        start: SeedsModel,
        c: ChangeTexts,
        old: Option<ParsedModule>,
    ) -> SeedsModel {
        let s = self.noted_source(start, c);
        let here = normal(self.graph.disk, c.path());
        let there = old_location(self.root, c.path(), c.kind());
        let known = self.graph.modules@.dom().contains(here);
        let current = self.graph.modules@[here];
        match old {
            None => if known {
                with_module(s, here, current)
            } else {
                s
            },
            Some(old) => if !known {
                match self.base_module(there) {
                    Some(m) => with_module(s, there, m),
                    None => with_module(s, there, old),
                }
            } else if c.kind() is Renamed {
                let moved = with_module(s, here, current);
                match self.base_module(there) {
                    Some(m) => with_module(moved, there, m),
                    None => moved,
                }
            } else {
                SeedsModel {
                    nodes: s.nodes.union(changed_runtime(there, here, old, current)),
                    type_nodes: s.type_nodes.union(changed_types(there, here, old, current)),
                    ..s
                }
            },
        }
    }

    pub open spec fn after_change(
        self,
        s: SeedsModel,
        c: ChangeTexts,
        old: Option<ParsedModule>,
    ) -> SeedsModel {
        if c.is_source() {
            self.after_source(s, c, old)
        } else {
            self.after_input(s, c)
        }
    }

    /// The seeds of the first `n` changes, given what the changed modules were.
    pub open spec fn seeds(
        self,
        changes: Seq<ChangeTexts>,
        olds: Seq<Option<ParsedModule>>,
        n: int,
    ) -> SeedsModel
        decreases n,
    {
        if n <= 0 {
            no_seeds()
        } else {
            self.after_change(self.seeds(changes, olds, n - 1), changes[n - 1], olds[n - 1])
        }
    }
}

/// Everything of a module.
pub open spec fn with_module(s: SeedsModel, path: Path, m: ParsedModule) -> SeedsModel {
    SeedsModel {
        nodes: s.nodes.union(all_runtime(path, m)),
        type_nodes: s.type_nodes.union(all_types(path, m)),
        ..s
    }
}

/// What a change was parsed to at the base revision.
pub open spec fn was(root: Path, c: ChangeTexts, r: Result<ParsedModule, ParseError>) -> bool {
    parsed(old_location(root, c.path(), c.kind()), c.before->0@, r)
}

/// The old modules of a list of changes.
pub open spec fn were(root: Path, changes: Seq<ChangeTexts>, olds: Seq<Option<ParsedModule>>) -> bool {
    forall|i: int|
        0 <= i < olds.len() ==> match #[trigger] olds[i] {
            Some(m) => changes[i].was_module() && was(root, changes[i], Ok(m)),
            None => !changes[i].was_module(),
        }
}

/// The first change whose old module cannot be parsed.
pub open spec fn is_first_fault(root: Path, changes: Seq<ChangeTexts>, i: int, fault: ParseError) -> bool {
    &&& 0 <= i < changes.len()
    &&& changes[i].was_module()
    &&& was(root, changes[i], Err(fault))
    &&& exists|olds: Seq<Option<ParsedModule>>| #[trigger]
        were(root, changes, olds) && olds.len() == i
}

/// What the changes of a workspace start from, or why it cannot be said.
pub open spec fn found(
    ground: Ground,
    changes: Seq<ChangeTexts>,
    r: Result<ChangeSeeds, ParseError>,
) -> bool {
    match r {
        Ok(seeds) => exists|olds: Seq<Option<ParsedModule>>| #[trigger]
            were(ground.root, changes, olds) && olds.len() == changes.len() && seeds@
                == ground.seeds(changes, olds, changes.len() as int),
        Err(fault) => exists|i: int| #[trigger] is_first_fault(ground.root, changes, i, fault),
    }
}

pub open spec fn base_view(graph: Option<&DependencyGraph>) -> Option<DependencyGraph> {
    match graph {
        Some(g) => Some(*g),
        None => None,
    }
}

fn depended_on(edges: &EdgeMap, n: &Node) -> (r: bool)
    ensures
        r == is_dependency(*edges, n@),
{
    let ghost keys = edges.keys();
    let count = edges.len();
    let mut i: usize = 0;
    while i < count
        invariant
            i <= count,
            count == keys.len(),
            keys == edges.keys(),
            forall|k: int| 0 <= k < i ==> !edges@[#[trigger] keys[k]]@.contains(n@),
        decreases count - i,
    {
        if edges.value_at(i).contains(n) {
            assert(edges_in(*edges).contains((keys[i as int], n@)));
            return true;
        }
        i += 1;
    }
    proof {
        edges.dom_is_finite();
        assert forall|consumer: NodeModel| !#[trigger] edges_in(*edges).contains((consumer, n@)) by {
            if edges@.dom().contains(consumer) {
                assert(keys.to_set().contains(consumer));
                let k = choose|k: int| 0 <= k < keys.len() && keys[k] == consumer;
                assert(!edges@[keys[k]]@.contains(n@));
            }
        }
    }
    false
}

fn referenced(graph: &DependencyGraph, n: &Node) -> (r: bool)
    ensures
        r == is_referenced(*graph, n@),
{
    depended_on(&graph.edges, n) || depended_on(&graph.type_edges, n)
}

fn has_part(path: &FilePath, part: &str) -> (r: bool)
    ensures
        r == path@.contains(part@),
{
    let mut i: usize = 0;
    while i < path.parts.len()
        invariant
            i <= path.parts.len(),
            forall|k: int| 0 <= k < i ==> #[trigger] path@[k] != part@,
        decreases path.parts.len() - i,
    {
        assert(path@[i as int] == path.parts@[i as int].text@);
        if same(path.parts[i].text.as_str(), part) {
            return true;
        }
        i += 1;
    }
    false
}

fn has_build_name(name: &str) -> (r: bool)
    ensures
        r == is_build_input(name@),
{
    same(name, "package.json") || same(name, "wrangler.json") || same(name, "wrangler.jsonc")
        || same(name, "tsconfig.json") || same(name, "Cargo.toml") || same(name, "build.rs")
        || starts_with(name, "vite.config.")
}

fn text_of(text: &Option<String>) -> (r: Option<&str>)
    ensures
        str_view(r) == text.model(),
{
    match text {
        Some(t) => Some(t.as_str()),
        None => None,
    }
}

fn same_option(a: &Option<FilePath>, b: &FilePath) -> (r: bool)
    ensures
        r == (a.model() == Some(b@)),
{
    match a {
        Some(p) => p.same_as(b),
        None => false,
    }
}

fn is_named(name: &Option<String>, text: &str) -> (r: bool)
    ensures
        r == (name.model() == Some(text@)),
{
    match name {
        Some(n) => same(n.as_str(), text),
        None => false,
    }
}

impl ChangeTexts {
    fn describe(&self) -> (r: Vec<String>)
        ensures
            texts_of(r@) == self.description(),
    {
        let name = self.change.path.file_name();
        describe_direct_input(
            text_of(&name),
            &self.change.kind,
            text_of(&self.before),
            text_of(&self.after),
        )
    }

    fn old_path(&self, root: &FilePath) -> (r: FilePath)
        ensures
            r@ == old_location(root@, self.path(), self.kind()),
    {
        match &self.change.kind {
            ChangeKind::Renamed { old_path } => root.join(old_path),
            _ => root.join(&relative(&self.change.path, root)),
        }
    }

    /// Reads the module that the file was at the base revision.
    fn old_module(&self, root: &FilePath) -> (r: Option<Result<ParsedModule, ParseError>>)
        ensures
            match r {
                Some(m) => self.was_module() && was(root@, *self, m),
                None => !self.was_module(),
            },
    {
        if !is_source_file(&self.change.path) {
            return None;
        }
        match self.change.kind {
            ChangeKind::Added => {
                return None;
            },
            _ => {},
        }
        match &self.before {
            Some(text) => Some(parse_module(&self.old_path(root), text.as_str())),
            None => None,
        }
    }
}

/// The workspace that changes are analyzed in.
struct Analysis<'a> {
    root: &'a FilePath,
    packages: &'a Vec<Package>,
    graph: &'a DependencyGraph,
    base: Option<&'a DependencyGraph>,
}

impl<'a> Analysis<'a> {
    spec fn ground(self) -> Ground {
        Ground {
            root: self.root@,
            packages: self.packages@,
            graph: *self.graph,
            base: base_view(self.base),
        }
    }

    fn seed_node(&self, result: &mut ChangeSeeds, path: &FilePath)
        ensures
            ({
                let n = (normal(self.graph.disk, path@), MODULE_INIT@);
                let more: Set<NodeModel> = if is_referenced(*self.graph, n) {
                    set![n]
                } else {
                    Set::empty()
                };
                final(result)@ == SeedsModel {
                    nodes: old(result)@.nodes.union(more),
                    type_nodes: old(result)@.type_nodes.union(more),
                    ..old(result)@
                }
            }),
    {
        let ghost start = result@;
        let node = Node::new(normalize_path(&self.graph.disk, path), MODULE_INIT.to_owned());
        let ghost n = node@;
        if referenced(self.graph, &node) {
            result.nodes.insert(node.dup());
            result.type_nodes.insert(node);
            assert(result@.nodes =~= start.nodes.union(set![n]));
            assert(result@.type_nodes =~= start.type_nodes.union(set![n]));
        } else {
            assert(result@.nodes =~= start.nodes.union(Set::empty()));
            assert(result@.type_nodes =~= start.type_nodes.union(Set::empty()));
        }
    }

    fn seed_nodes(&self, result: &mut ChangeSeeds, c: &ChangeTexts)
        ensures
            final(result)@ == (SeedsModel {
                nodes: old(result)@.nodes.union(self.ground().input_nodes(*c)),
                type_nodes: old(result)@.type_nodes.union(self.ground().input_nodes(*c)),
                ..old(result)@
            }),
    {
        let ghost start = result@;
        self.seed_node(result, &c.change.path);
        match &c.change.kind {
            ChangeKind::Renamed { old_path } => {
                self.seed_node(result, &self.root.join(old_path));
            },
            _ => {},
        }
        assert(result@.nodes =~= start.nodes.union(self.ground().input_nodes(*c)));
        assert(result@.type_nodes =~= start.type_nodes.union(self.ground().input_nodes(*c)));
    }

    fn seed_attributed(
        &self,
        result: &mut ChangeSeeds,
        path: &FilePath,
        changed: &KeySet<String>,
        detail: &str,
    )
        ensures
            ({
                let names = ascending_list::<String>(changed@);
                final(result)@ == with_lockfile(
                    old(result)@,
                    self.ground(),
                    path@,
                    names,
                    detail@,
                    names.len() as int,
                ).0
            }),
    {
        let ghost start = result@;
        let ghost g = self.ground();
        let n = changed.len();
        let ghost names = changed.list();
        proof {
            ascending_list_is::<String>(names, changed@);
        }
        let mut i: usize = 0;
        while i < n
            invariant
                i <= n,
                n == names.len(),
                names == changed.list(),
                ascending_list::<String>(changed@) == names,
                g == self.ground(),
                start == old(result)@,
                with_lockfile(start, g, path@, names, detail@, i as int) == (result@, false),
            decreases n - i,
        {
            let name = changed.at(i);
            match find_named(self.packages, name) {
                Some(k) => {
                    let mut details: Vec<String> = Vec::new();
                    details.push(detail.to_owned());
                    assert(texts_of(details@) =~= seq![detail@]);
                    seed_package_input(
                        result,
                        self.graph,
                        self.packages,
                        &self.packages[k],
                        path,
                        details,
                    );
                },
                None => {
                    apply_lockfile_fallback(result, self.graph, path, UNKNOWN_IMPORTER);
                    proof {
                        stays_stopped(start, g, path@, names, detail@, i + 1, n as int);
                    }
                    return;
                },
            }
            i += 1;
        }
    }

    fn seed_lockfile(&self, result: &mut ChangeSeeds, c: &ChangeTexts, manager: &PackageManager)
        ensures
            final(result)@ == self.ground().after_lockfile(old(result)@, *c, *manager),
    {
        match manager.lockfile_impact(
            self.root,
            &c.old_lockfile,
            &c.new_lockfile,
            self.packages,
            &self.graph.disk,
        ) {
            LockfileImpact::Modeled(changed) => {
                self.seed_attributed(
                    result,
                    &c.change.path,
                    &changed,
                    manager.modeled_detail(),
                );
            },
            LockfileImpact::Fallback(reason) => {
                apply_lockfile_fallback(result, self.graph, &c.change.path, reason.as_str());
            },
        }
    }

    fn find_manager(&self, c: &ChangeTexts) -> (r: Option<PackageManager>)
        ensures
            r == self.ground().manager(*c),
    {
        if same_option(&c.change.path.parent(), self.root) {
            match c.change.path.file_name() {
                Some(name) => package_manager_for(name.as_str()),
                None => package_manager_for(""),
            }
        } else {
            None
        }
    }

    fn stray_manifest(&self, c: &ChangeTexts) -> (r: bool)
        ensures
            r == self.ground().is_stray_manifest(*c),
    {
        let own = is_named(&c.change.path.file_name(), "package.json");
        proof {
            reveal_strlit("package.json");
            reveal_strlit("");
            assert("package.json"@.len() == 12);
            assert(own == (c.name() == "package.json"@));
        }
        let renamed = match &c.change.kind {
            ChangeKind::Renamed { old_path } => is_named(&old_path.file_name(), "package.json"),
            _ => false,
        };
        let owned = match package_for_path(self.packages, &c.change.path) {
            Some(package) => same_option(&c.change.path.parent(), &package.dir),
            None => false,
        };
        (own || renamed) && !owned
    }

    fn seed_input(&self, result: &mut ChangeSeeds, c: &ChangeTexts)
        ensures
            final(result)@ == self.ground().after_input(old(result)@, *c),
    {
        self.seed_nodes(result, c);
        match self.find_manager(c) {
            Some(manager) => {
                self.seed_lockfile(result, c, &manager);
                return;
            },
            None => {},
        }
        if self.stray_manifest(c) {
            let details = c.describe();
            note_everywhere(&mut result.direct_packages, self.graph, &c.change.path, &details);
            assert(target_models(self.graph.targets@).len() == self.graph.targets@.len());
            return;
        }
        match package_for_path(self.packages, &c.change.path) {
            Some(package) => {
                let inside = relative(&c.change.path, &package.dir);
                let is_rust_source = is_named(&c.change.path.extension(), "rs") && has_part(
                    &inside,
                    "src",
                );
                let is_input = match c.change.path.file_name() {
                    Some(name) => has_build_name(name.as_str()),
                    None => has_build_name(""),
                };
                if is_input || is_rust_source {
                    let details = c.describe();
                    seed_package_input(
                        result,
                        self.graph,
                        self.packages,
                        package,
                        &c.change.path,
                        details,
                    );
                }
            },
            None => {},
        }
    }

    fn has_target(&self, name: &String) -> (r: bool)
        ensures
            r == has_target(target_models(self.graph.targets@), name@),
    {
        let ghost targets = target_models(self.graph.targets@);
        let mut i: usize = 0;
        while i < self.graph.targets.len()
            invariant
                i <= self.graph.targets.len(),
                targets == target_models(self.graph.targets@),
                forall|k: int| 0 <= k < i ==> (#[trigger] targets[k]).0 != name@,
            decreases self.graph.targets.len() - i,
        {
            assert(targets[i as int].0 == self.graph.targets@[i as int].package@);
            if self.graph.targets[i].package == *name {
                return true;
            }
            i += 1;
        }
        false
    }

    fn note_source(&self, result: &mut ChangeSeeds, c: &ChangeTexts)
        ensures
            final(result)@ == self.ground().noted_source(old(result)@, *c),
    {
        match package_for_path(self.packages, &c.change.path) {
            Some(package) => {
                let inside = relative(&c.change.path, &package.dir);
                let is_runtime_source = !is_test_file(&inside) && (has_part(&inside, "src")
                    || same_option(&package.entrypoint, &c.change.path));
                let is_unlinked_target = self.has_target(&package.name)
                    && !self.graph.edges.contains_key(
                    &DependencyGraph::target_node(package.name.as_str()),
                );
                if is_runtime_source && is_unlinked_target {
                    let details = c.describe();
                    note(
                        &mut result.direct_packages,
                        package.name.as_str(),
                        &c.change.path,
                        details,
                    );
                }
            },
            None => {},
        }
    }

    fn find_base(&self, path: &FilePath) -> (r: Option<&ParsedModule>)
        ensures
            match r {
                Some(m) => self.ground().base_module(path@) == Some(*m),
                None => self.ground().base_module(path@) is None,
            },
    {
        match self.base {
            Some(graph) => graph.modules.get(path),
            None => None,
        }
    }

    fn seed_source(&self, result: &mut ChangeSeeds, c: &ChangeTexts, old_module: Option<&ParsedModule>)
        ensures
            final(result)@ == self.ground().after_source(
                old(result)@,
                *c,
                match old_module {
                    Some(m) => Some(*m),
                    None => None,
                },
            ),
    {
        self.note_source(result, c);
        let here = normalize_path(&self.graph.disk, &c.change.path);
        let there = c.old_path(self.root);
        match (old_module, self.graph.modules.get(&here)) {
            (None, Some(current)) => {
                add_all_symbols(&mut result.nodes, &mut result.type_nodes, &here, current);
            },
            (None, None) => {},
            (Some(old_version), None) => {
                let module = match self.find_base(&there) {
                    Some(m) => m,
                    None => old_version,
                };
                add_all_symbols(&mut result.nodes, &mut result.type_nodes, &there, module);
            },
            (Some(old_version), Some(current)) => match c.change.kind {
                ChangeKind::Renamed { .. } => {
                    add_all_symbols(&mut result.nodes, &mut result.type_nodes, &here, current);
                    match self.find_base(&there) {
                        Some(m) => {
                            add_all_symbols(&mut result.nodes, &mut result.type_nodes, &there, m);
                        },
                        None => {},
                    }
                },
                _ => {
                    add_changed_symbols(
                        &mut result.nodes,
                        &mut result.type_nodes,
                        &there,
                        &here,
                        old_version,
                        current,
                    );
                },
            },
        }
    }
}

/// Where one changed importer is unknown, the others behind it change nothing more.
proof fn stays_stopped(
    s: SeedsModel,
    ground: Ground,
    path: Path,
    names: Seq<Text>,
    detail: Text,
    i: int,
    n: int,
)
    requires
        0 <= i <= n,
        with_lockfile(s, ground, path, names, detail, i).1,
    ensures
        with_lockfile(s, ground, path, names, detail, n) == with_lockfile(
            s,
            ground,
            path,
            names,
            detail,
            i,
        ),
    decreases n,
{
    if i < n {
        stays_stopped(s, ground, path, names, detail, i, n - 1);
    }
}

/// What a list of changes starts from, given what the changed modules were at the base revision.
pub fn seeds_of_changes(
    root: &FilePath,
    changes: &Vec<ChangeTexts>,
    old_modules: &Vec<Option<ParsedModule>>,
    packages: &Vec<Package>,
    graph: &DependencyGraph,
    base_graph: Option<&DependencyGraph>,
) -> (r: ChangeSeeds)
    requires
        old_modules.len() == changes.len(),
    ensures
        r@ == (Ground {
            root: root@,
            packages: packages@,
            graph: *graph,
            base: base_view(base_graph),
        }).seeds(changes@, old_modules@, changes@.len() as int),
{
    let analysis = Analysis { root, packages, graph, base: base_graph };
    let ghost ground = analysis.ground();
    let mut result = ChangeSeeds::new();
    let mut i: usize = 0;
    while i < changes.len()
        invariant
            i <= changes.len(),
            old_modules.len() == changes.len(),
            ground == analysis.ground(),
            result@ == ground.seeds(changes@, old_modules@, i as int),
        decreases changes.len() - i,
    {
        let c = &changes[i];
        if is_source_file(&c.change.path) {
            let old_module = match &old_modules[i] {
                Some(m) => Some(m),
                None => None,
            };
            analysis.seed_source(&mut result, c, old_module);
        } else {
            analysis.seed_input(&mut result, c);
        }
        i += 1;
    }
    result
}

/// What a list of changes starts from. A module that cannot be parsed as it was at the base
/// revision is an error.
pub fn find_change_seeds(
    root: &FilePath,
    changes: &Vec<ChangeTexts>,
    packages: &Vec<Package>,
    graph: &DependencyGraph,
    base_graph: Option<&DependencyGraph>,
) -> (r: Result<ChangeSeeds, ParseError>)
    ensures
        found(
            Ground {
                root: root@,
                packages: packages@,
                graph: *graph,
                base: base_view(base_graph),
            },
            changes@,
            r,
        ),
{
    let ghost ground = Ground {
        root: root@,
        packages: packages@,
        graph: *graph,
        base: base_view(base_graph),
    };
    let mut olds: Vec<Option<ParsedModule>> = Vec::new();
    let mut i: usize = 0;
    while i < changes.len()
        invariant
            i <= changes.len(),
            olds.len() == i,
            ground == (Ground {
                root: root@,
                packages: packages@,
                graph: *graph,
                base: base_view(base_graph),
            }),
            were(root@, changes@, olds@),
        decreases changes.len() - i,
    {
        match changes[i].old_module(root) {
            Some(Ok(m)) => {
                olds.push(Some(m));
            },
            Some(Err(fault)) => {
                assert(was(root@, changes@[i as int], Err(fault)));
                assert(were(root@, changes@, olds@) && olds@.len() == i);
                let out: Result<ChangeSeeds, ParseError> = Err(fault);
                assert(is_first_fault(ground.root, changes@, i as int, out->Err_0));
                assert(found(ground, changes@, out));
                return out;
            },
            None => {
                olds.push(None);
            },
        }
        i += 1;
    }
    assert(were(root@, changes@, olds@));
    Ok(seeds_of_changes(root, changes, &olds, packages, graph, base_graph))
}

/// The texts of a change make no difference unless they have to be read.
pub proof fn other_texts_do_not_matter(
    ground: Ground,
    start: SeedsModel,
    a: ChangeTexts,
    b: ChangeTexts,
    old: Option<ParsedModule>,
)
    requires
        a.path() == b.path(),
        a.kind() == b.kind(),
        !has_texts(a.path()),
    ensures
        ground.after_change(start, a, old) == ground.after_change(start, b, old),
{
    assert(ground.input_nodes(a) =~= ground.input_nodes(b));
    reveal_strlit("");
    reveal_strlit("pnpm-lock.yaml");
    assert(""@.len() == 0);
    assert("pnpm-lock.yaml"@.len() == 14);
    assert(manager_of(a.name()) != Some(PackageManager::Pnpm));
    assert(a.description() == b.description());
}

} // verus!
