//! Why a package is affected.
use vstd::prelude::*;

use crate::collections::{first_from, KeyMap, KeySet};
use crate::diagnostics::Diagnostic;
use crate::graph::explain::{reason_for, EdgeExplanation, Reason};
use crate::graph::links::{edges_in, Finding};
use crate::graph::node::{Node, NodeModel};
use crate::graph::paths::{path_models, reason_paths};
use crate::order::{models, Key};
use crate::path::FilePath;
use crate::query::report::{
    display_edge_location, display_node, display_path, list_members, local_name, member_lines,
    node_label, reason_place,
};
use crate::query::{Analysis, TaskKind, MAX_REASON_PATHS};
use crate::text::{decimal, decimal_text, join, join2, join3, joined, same};
use crate::ui::{WhyUiItem, WhyUiModel};
use crate::words::texts_of;
use crate::workspace::owner::Path;

verus! {

pub type Text = Seq<char>;

impl Analysis {
    pub open spec fn is_target_named(self, package: Text) -> spec_fn(int) -> bool {
        |i: int| self.graph.targets@[i].package@ == package
    }

    /// The first target of this package.
    pub open spec fn target_named(self, package: Text) -> Option<int> {
        first_from(self.is_target_named(package), 0, self.graph.targets@.len() as int)
    }

    /// One node depends on another for types only.
    pub open spec fn is_type_only(self, consumer: NodeModel, node: NodeModel) -> bool {
        !edges_in(self.graph.edges).contains((consumer, node)) && edges_in(
            self.graph.type_edges,
        ).contains((consumer, node))
    }

    /// Why a path goes on from a node to its consumer.
    pub open spec fn hop(self, node: NodeModel, consumer: NodeModel) -> Reason {
        reason_for(
            self.graph.world(),
            self.graph.typed_registry_edges@,
            consumer,
            node,
            self.is_type_only(consumer, node),
        )
    }

    /// The paths to a target.
    pub open spec fn paths_to_target(self, i: int) -> Seq<Seq<NodeModel>> {
        reason_paths(self.reachability, self.graph.targets@[i].node@, MAX_REASON_PATHS)
    }

    /// The first target of this package.
    pub(crate) fn find_target(&self, package: &str) -> (r: Option<usize>)
        ensures
            match r {
                Some(i) => self.target_named(package@) == Some(i as int) && i
                    < self.graph.targets@.len(),
                None => self.target_named(package@) is None,
            },
    {
        let ghost p = self.is_target_named(package@);
        let ghost n = self.graph.targets@.len() as int;
        let mut i: usize = 0;
        while i < self.graph.targets.len()
            invariant
                i <= self.graph.targets.len(),
                p == self.is_target_named(package@),
                n == self.graph.targets@.len(),
                first_from(p, i as int, n) == first_from(p, 0, n),
            decreases self.graph.targets.len() - i,
        {
            if same(self.graph.targets[i].package.as_str(), package) {
                assert(p(i as int));
                return Some(i);
            }
            assert(!p(i as int));
            i += 1;
        }
        None
    }

    fn type_only(&self, consumer: &Node, node: &Node) -> (r: bool)
        ensures
            r == self.is_type_only(consumer@, node@),
    {
        let runtime = match self.graph.edges.get(consumer) {
            Some(dependencies) => dependencies.contains(node),
            None => false,
        };
        let typed = match self.graph.type_edges.get(consumer) {
            Some(dependencies) => dependencies.contains(node),
            None => false,
        };
        !runtime && typed
    }

    fn explain_hop(&self, node: &Node, consumer: &Node) -> (r: EdgeExplanation)
        ensures
            r@ == self.hop(node@, consumer@),
    {
        self.graph.edge_explanation(consumer, node, self.type_only(consumer, node))
    }
}

/// A file lies on a path.
pub open spec fn is_on(paths: Seq<Seq<NodeModel>>, file: Path) -> bool {
    exists|i: int, j: int|
        0 <= i < paths.len() && 0 <= j < paths[i].len() && (#[trigger] paths[i][j]).0 == file
}

/// A run-time cycle that the paths enter.
pub open spec fn is_entered(d: Finding, paths: Seq<Seq<NodeModel>>) -> bool {
    d.0 == "MONORIPPLE_RUNTIME_MODULE_CYCLE"@ && exists|k: int|
        0 <= k < d.1.1.1.1.len() && is_on(paths, #[trigger] d.1.1.1.1[k])
}

fn files_on(paths: &Vec<Vec<Node>>) -> (r: KeySet<FilePath>)
    ensures
        forall|f: Path| #[trigger] r@.contains(f) == is_on(path_models(paths@), f),
{
    let ghost all = path_models(paths@);
    let mut out: KeySet<FilePath> = KeySet::new();
    let mut i: usize = 0;
    while i < paths.len()
        invariant
            i <= paths.len(),
            all == path_models(paths@),
            forall|f: Path| #[trigger]
                out@.contains(f) == (exists|a: int, b: int|
                    0 <= a < i && 0 <= b < all[a].len() && (#[trigger] all[a][b]).0 == f),
        decreases paths.len() - i,
    {
        let path = &paths[i];
        let ghost start = out@;
        assert(all[i as int] == models(path@));
        let mut j: usize = 0;
        while j < path.len()
            invariant
                j <= path.len(),
                i < paths.len(),
                all == path_models(paths@),
                all[i as int] == models(path@),
                forall|f: Path| #[trigger]
                    start.contains(f) == (exists|a: int, b: int|
                        0 <= a < i && 0 <= b < all[a].len() && (#[trigger] all[a][b]).0 == f),
                forall|f: Path| #[trigger]
                    out@.contains(f) == (start.contains(f) || exists|b: int|
                        0 <= b < j && (#[trigger] all[i as int][b]).0 == f),
            decreases path.len() - j,
        {
            let ghost before = out@;
            out.insert(path[j].file.dup());
            proof {
                assert(all[i as int][j as int] == path@[j as int]@);
                assert forall|f: Path| #[trigger]
                    out@.contains(f) == (start.contains(f) || exists|b: int|
                        0 <= b < j + 1 && (#[trigger] all[i as int][b]).0 == f) by {
                    assert(before.contains(f) == (start.contains(f) || exists|b: int|
                        0 <= b < j && (#[trigger] all[i as int][b]).0 == f));
                    assert(out@.contains(f) == (before.contains(f) || all[i as int][j as int].0
                        == f));
                }
            }
            j += 1;
        }
        proof {
            assert forall|f: Path| #[trigger]
                out@.contains(f) == (exists|a: int, b: int|
                    0 <= a < i + 1 && 0 <= b < all[a].len() && (#[trigger] all[a][b]).0 == f) by {
                assert(start.contains(f) == (exists|a: int, b: int|
                    0 <= a < i && 0 <= b < all[a].len() && (#[trigger] all[a][b]).0 == f));
                if exists|b: int| 0 <= b < j && (#[trigger] all[i as int][b]).0 == f {
                    let b = choose|b: int| 0 <= b < j && (#[trigger] all[i as int][b]).0 == f;
                    assert(all[i as int][b].0 == f);
                }
            }
        }
        i += 1;
    }
    out
}

fn enters_cycle(d: &Diagnostic, files: &KeySet<FilePath>, paths: &Vec<Vec<Node>>) -> (r: bool)
    requires
        forall|f: Path| #[trigger] files@.contains(f) == is_on(path_models(paths@), f),
    ensures
        r == is_entered(d.model(), path_models(paths@)),
{
    let ghost all = path_models(paths@);
    let ghost members = d.model().1.1.1.1;
    if !same(d.code, "MONORIPPLE_RUNTIME_MODULE_CYCLE") {
        return false;
    }
    let mut k: usize = 0;
    while k < d.members.len()
        invariant
            k <= d.members.len(),
            all == path_models(paths@),
            members == d.model().1.1.1.1,
            d.code@ == "MONORIPPLE_RUNTIME_MODULE_CYCLE"@,
            forall|f: Path| #[trigger] files@.contains(f) == is_on(all, f),
            forall|j: int| 0 <= j < k ==> !is_on(all, #[trigger] members[j]),
        decreases d.members.len() - k,
    {
        assert(members[k as int] == d.members@[k as int]@);
        if files.contains(&d.members[k]) {
            assert(is_on(all, members[k as int]));
            return true;
        }
        k += 1;
    }
    false
}

/// The lines about the first `n` inputs that concern a package as a whole.
pub open spec fn input_lines(
    root: Path,
    inputs: Map<Path, Vec<String>>,
    keys: Seq<Path>,
    n: int,
) -> Seq<Text>
    decreases n,
{
    if n <= 0 {
        Seq::empty()
    } else {
        let details = texts_of(inputs[keys[n - 1]]@);
        input_lines(root, inputs, keys, n - 1).push("  - "@ + local_name(root, keys[n - 1])) + Seq::new(
            details.len(),
            |i: int| "      "@ + details[i],
        )
    }
}

pub open spec fn direct_lines(
    root: Path,
    package: Text,
    inputs: KeyMap<FilePath, Vec<String>>,
) -> Seq<Text> {
    seq![package + " is directly affected by:"@] + input_lines(
        root,
        inputs@,
        inputs.keys(),
        inputs.keys().len() as int,
    )
}

/// The line under a step that says how the path goes on.
pub open spec fn hop_line(root: Path, reason: Reason) -> Text {
    "     \u{2193} "@ + reason.detail + match reason_place(root, reason) {
        Some(place) => " at "@ + place,
        None => Seq::empty(),
    }
}

/// The lines about the first `n` steps of a path.
pub open spec fn step_lines(root: Path, a: Analysis, path: Seq<NodeModel>, n: int) -> Seq<Text>
    decreases n,
{
    if n <= 0 {
        Seq::empty()
    } else {
        let before = step_lines(root, a, path, n - 1).push(
            "  "@ + decimal(n as nat) + ". "@ + node_label(root, path[n - 1]),
        );
        if n < path.len() {
            before.push(hop_line(root, a.hop(path[n - 1], path[n])))
        } else {
            before
        }
    }
}

/// The lines about the first `n` paths.
pub open spec fn path_lines(root: Path, a: Analysis, paths: Seq<Seq<NodeModel>>, n: int) -> Seq<Text>
    decreases n,
{
    if n <= 0 {
        Seq::empty()
    } else {
        let before = path_lines(root, a, paths, n - 1);
        let path = paths[n - 1];
        let steps = step_lines(root, a, path, path.len() as int);
        if paths.len() > 1 {
            before.push("\nPath "@ + decimal(n as nat) + ":"@) + steps
        } else {
            before + steps
        }
    }
}

pub open spec fn paths_header(package: Text, count: int) -> Text {
    if count == 1 {
        package + " is affected through this impact path:"@
    } else {
        package + " is affected through "@ + decimal(count as nat)
            + " impact paths (showing up to 20):"@
    }
}

/// The lines about the cycles that the paths enter, among the first `n` findings.
pub open spec fn cycle_lines(
    root: Path,
    found: Seq<Finding>,
    paths: Seq<Seq<NodeModel>>,
    n: int,
) -> Seq<Text>
    decreases n,
{
    if n <= 0 {
        Seq::empty()
    } else {
        let before = cycle_lines(root, found, paths, n - 1);
        let d = found[n - 1];
        if is_entered(d, paths) {
            before.push("\nimpact paths enter a runtime module cycle:"@) + member_lines(
                root,
                d.1.1.1.1,
                d.1.1.1.1.len() as int,
            )
        } else {
            before
        }
    }
}

pub open spec fn reason_lines(root: Path, a: Analysis, package: Text, i: int) -> Seq<Text> {
    let paths = a.paths_to_target(i);
    seq![paths_header(package, paths.len() as int)] + path_lines(
        root,
        a,
        paths,
        paths.len() as int,
    ) + cycle_lines(root, models(a.diagnostics@), paths, a.diagnostics@.len() as int)
}

/// Why the question cannot be answered.
pub open spec fn why_fault(a: Analysis, package: Text) -> Option<Text> {
    if a.task == TaskKind::Typecheck {
        Some("`why` for typecheck queries is not implemented yet"@)
    } else if a.seeds.direct_packages@.dom().contains(package) {
        None
    } else {
        match a.target_named(package) {
            None => Some("target package '"@ + package + "' was not found"@),
            Some(i) => if a.paths_to_target(i).len() == 0 {
                Some("target package '"@ + package + "' is not affected"@)
            } else {
                None
            },
        }
    }
}

/// The answer in lines.
pub open spec fn why_lines(root: Path, a: Analysis, package: Text) -> Seq<Text> {
    if a.seeds.direct_packages@.dom().contains(package) {
        direct_lines(root, package, a.seeds.direct_packages@[package])
    } else {
        reason_lines(root, a, package, a.target_named(package)->0)
    }
}

fn list_inputs(root: &FilePath, inputs: &KeyMap<FilePath, Vec<String>>, out: &mut Vec<String>)
    ensures
        texts_of(final(out)@) == texts_of(old(out)@) + input_lines(
            root@,
            inputs@,
            inputs.keys(),
            inputs.keys().len() as int,
        ),
{
    let ghost start = texts_of(out@);
    let ghost keys = inputs.keys();
    let n = inputs.len();
    let mut i: usize = 0;
    assert(texts_of(out@) =~= start + input_lines(root@, inputs@, keys, 0));
    while i < n
        invariant
            i <= n,
            n == keys.len(),
            keys == inputs.keys(),
            texts_of(out@) == start + input_lines(root@, inputs@, keys, i as int),
        decreases n - i,
    {
        let line = join2("  - ", display_path(root, inputs.key_at(i)).as_str());
        let ghost first = line@;
        let ghost before = texts_of(out@);
        out.push(line);
        assert(texts_of(out@) =~= before.push(first));
        let changes = inputs.value_at(i);
        let ghost details = texts_of(changes@);
        let ghost more = Seq::new(details.len(), |k: int| "      "@ + details[k]);
        let mut j: usize = 0;
        assert(texts_of(out@) =~= before.push(first) + more.take(0));
        while j < changes.len()
            invariant
                j <= changes.len(),
                details == texts_of(changes@),
                more == Seq::new(details.len(), |k: int| "      "@ + details[k]),
                texts_of(out@) == before.push(first) + more.take(j as int),
            decreases changes.len() - j,
        {
            let ghost now = texts_of(out@);
            let detail = join2("      ", changes[j].as_str());
            out.push(detail);
            proof {
                assert(details[j as int] == changes@[j as int]@);
                assert(texts_of(out@) =~= now.push(detail@));
                assert(texts_of(out@) =~= before.push(first) + more.take(j + 1));
            }
            j += 1;
        }
        proof {
            assert(more.take(j as int) =~= more);
            assert(texts_of(out@) =~= start + input_lines(root@, inputs@, keys, i + 1));
        }
        i += 1;
    }
}

fn write_hop(root: &FilePath, explanation: &EdgeExplanation) -> (r: String)
    ensures
        r@ == hop_line(root@, explanation@),
{
    let mut out = join2("     \u{2193} ", explanation.detail.as_str());
    let ghost front = out@;
    match display_edge_location(root, explanation) {
        Some(place) => {
            out.append(" at ");
            out.append(place.as_str());
            assert(out@ =~= front + (" at "@ + place@));
        },
        None => {
            assert(out@ =~= front + Seq::<char>::empty());
        },
    }
    out
}

impl Analysis {
    fn list_steps(&self, root: &FilePath, path: &Vec<Node>, out: &mut Vec<String>)
        ensures
            texts_of(final(out)@) == texts_of(old(out)@) + step_lines(
                root@,
                *self,
                models(path@),
                path@.len() as int,
            ),
    {
        let ghost start = texts_of(out@);
        let ghost all = models(path@);
        let mut i: usize = 0;
        assert(texts_of(out@) =~= start + step_lines(root@, *self, all, 0));
        while i < path.len()
            invariant
                i <= path.len(),
                all == models(path@),
                texts_of(out@) == start + step_lines(root@, *self, all, i as int),
            decreases path.len() - i,
        {
            let ghost before = texts_of(out@);
            let mut line = join3("  ", decimal_text(i + 1).as_str(), ". ");
            line.append(display_node(root, &path[i]).as_str());
            let ghost first = line@;
            out.push(line);
            assert(all[i as int] == path@[i as int]@);
            assert(texts_of(out@) =~= before.push(first));
            if i + 1 < path.len() {
                assert(all[i + 1] == path@[i + 1]@);
                let ghost now = texts_of(out@);
                let explanation = self.explain_hop(&path[i], &path[i + 1]);
                let next = write_hop(root, &explanation);
                out.push(next);
                assert(texts_of(out@) =~= now.push(next@));
            }
            assert(texts_of(out@) =~= start + step_lines(root@, *self, all, i + 1));
            i += 1;
        }
    }

    fn list_paths(&self, root: &FilePath, paths: &Vec<Vec<Node>>, out: &mut Vec<String>)
        ensures
            texts_of(final(out)@) == texts_of(old(out)@) + path_lines(
                root@,
                *self,
                path_models(paths@),
                paths@.len() as int,
            ),
    {
        let ghost start = texts_of(out@);
        let ghost all = path_models(paths@);
        let mut i: usize = 0;
        assert(texts_of(out@) =~= start + path_lines(root@, *self, all, 0));
        while i < paths.len()
            invariant
                i <= paths.len(),
                all == path_models(paths@),
                texts_of(out@) == start + path_lines(root@, *self, all, i as int),
            decreases paths.len() - i,
        {
            let ghost before = texts_of(out@);
            assert(all[i as int] == models(paths@[i as int]@));
            if paths.len() > 1 {
                let line = join3("\nPath ", decimal_text(i + 1).as_str(), ":");
                out.push(line);
                assert(texts_of(out@) =~= before.push(line@));
            }
            self.list_steps(root, &paths[i], out);
            assert(texts_of(out@) =~= start + path_lines(root@, *self, all, i + 1));
            i += 1;
        }
    }

    fn list_cycles(&self, root: &FilePath, paths: &Vec<Vec<Node>>, out: &mut Vec<String>)
        ensures
            texts_of(final(out)@) == texts_of(old(out)@) + cycle_lines(
                root@,
                models(self.diagnostics@),
                path_models(paths@),
                self.diagnostics@.len() as int,
            ),
    {
        let files = files_on(paths);
        let ghost start = texts_of(out@);
        let ghost all = models(self.diagnostics@);
        let ghost on = path_models(paths@);
        let mut i: usize = 0;
        assert(texts_of(out@) =~= start + cycle_lines(root@, all, on, 0));
        while i < self.diagnostics.len()
            invariant
                i <= self.diagnostics.len(),
                all == models(self.diagnostics@),
                on == path_models(paths@),
                forall|f: Path| #[trigger] files@.contains(f) == is_on(path_models(paths@), f),
                texts_of(out@) == start + cycle_lines(root@, all, on, i as int),
            decreases self.diagnostics.len() - i,
        {
            let d = &self.diagnostics[i];
            let ghost before = texts_of(out@);
            assert(all[i as int] == d.model());
            if enters_cycle(d, &files, paths) {
                let line = "\nimpact paths enter a runtime module cycle:".to_owned();
                out.push(line);
                assert(texts_of(out@) =~= before.push(line@));
                list_members(root, &d.members, out);
                assert(models(d.members@).len() == d.members@.len());
            }
            assert(texts_of(out@) =~= start + cycle_lines(root@, all, on, i + 1));
            i += 1;
        }
    }

    /// The paths that explain a package, or why there are none.
    fn find_paths(&self, package: &str) -> (r: Result<Vec<Vec<Node>>, String>)
        requires
            self.task != TaskKind::Typecheck,
            !self.seeds.direct_packages@.dom().contains(package@),
        ensures
            match r {
                Ok(paths) => why_fault(*self, package@) is None && self.target_named(package@) is Some
                    && path_models(paths@) == self.paths_to_target(self.target_named(package@)->0),
                Err(fault) => why_fault(*self, package@) == Some(fault@),
            },
    {
        let i = match self.find_target(package) {
            Some(i) => i,
            None => {
                return Err(join3("target package '", package, "' was not found"));
            },
        };
        let paths = self.graph.paths_to(
            &self.reachability,
            &self.graph.targets[i].node,
            MAX_REASON_PATHS,
        );
        assert(path_models(paths@).len() == paths@.len());
        if paths.len() == 0 {
            return Err(join3("target package '", package, "' is not affected"));
        }
        Ok(paths)
    }
}

/// Says in lines why a package is affected.
pub fn explain_package(root: &FilePath, analysis: &Analysis, package: &str) -> (r: Result<
    Vec<String>,
    String,
>)
    ensures
        match r {
            Ok(lines) => why_fault(*analysis, package@) is None && texts_of(lines@) == why_lines(
                root@,
                *analysis,
                package@,
            ),
            Err(fault) => why_fault(*analysis, package@) == Some(fault@),
        },
{
    if analysis.task == TaskKind::Typecheck {
        return Err("`why` for typecheck queries is not implemented yet".to_owned());
    }
    let mut out: Vec<String> = Vec::new();
    match analysis.seeds.direct_packages.get(&package.to_owned()) {
        Some(inputs) => {
            let line = join2(package, " is directly affected by:");
            out.push(line);
            assert(texts_of(out@) =~= seq![line@]);
            list_inputs(root, inputs, &mut out);
            return Ok(out);
        },
        None => {},
    }
    let paths = match analysis.find_paths(package) {
        Ok(paths) => paths,
        Err(fault) => {
            return Err(fault);
        },
    };
    assert(path_models(paths@).len() == paths@.len());
    let line = if paths.len() == 1 {
        join2(package, " is affected through this impact path:")
    } else {
        let mut line = join3(
            package,
            " is affected through ",
            decimal_text(paths.len()).as_str(),
        );
        line.append(" impact paths (showing up to 20):");
        line
    };
    out.push(line);
    assert(texts_of(out@) =~= seq![line@]);
    analysis.list_paths(root, &paths, &mut out);
    analysis.list_cycles(root, &paths, &mut out);
    Ok(out)
}

/// An item of the interactive view.
pub type ItemModel = (Text, Text);

pub open spec fn item_models(items: Seq<WhyUiItem>) -> Seq<ItemModel> {
    items.map_values(|i: WhyUiItem| (i.label@, i.detail@))
}

pub open spec fn item_paths(paths: Seq<Vec<WhyUiItem>>) -> Seq<Seq<ItemModel>> {
    paths.map_values(|p: Vec<WhyUiItem>| item_models(p@))
}

pub open spec fn text_lists(lists: Seq<Vec<String>>) -> Seq<Seq<Text>> {
    lists.map_values(|l: Vec<String>| texts_of(l@))
}

/// The item of an input that concerns a package as a whole.
pub open spec fn input_item(root: Path, path: Path, details: Seq<Text>) -> ItemModel {
    (
        local_name(root, path),
        if details.len() == 0 {
            "This changed build input directly affects the package."@
        } else {
            joined(details, "\n"@)
        },
    )
}

pub open spec fn input_items(
    root: Path,
    inputs: Map<Path, Vec<String>>,
    keys: Seq<Path>,
    n: int,
) -> Seq<ItemModel>
    decreases n,
{
    if n <= 0 {
        Seq::empty()
    } else {
        input_items(root, inputs, keys, n - 1).push(
            input_item(root, keys[n - 1], texts_of(inputs[keys[n - 1]]@)),
        )
    }
}

/// The item of the target that is concerned as a whole.
pub open spec fn target_item(package: Text) -> ItemModel {
    ("target "@ + package, "Deployment target `"@ + package + "` is directly affected."@)
}

/// What is said of a step.
pub open spec fn step_detail(
    root: Path,
    a: Analysis,
    package: Text,
    path: Seq<NodeModel>,
    i: int,
) -> Text {
    if i + 1 < path.len() {
        let reason = a.hop(path[i], path[i + 1]);
        (if i == 0 {
            "This declaration changed.\nNext relationship: "@
        } else {
            "Next relationship: "@
        }) + reason.detail + match reason_place(root, reason) {
            Some(place) => "\nSource: "@ + place,
            None => Seq::empty(),
        }
    } else {
        "The impact reaches deployment target `"@ + package + "`."@
    }
}

pub open spec fn step_items(root: Path, a: Analysis, package: Text, path: Seq<NodeModel>) -> Seq<
    ItemModel,
> {
    Seq::new(
        path.len(),
        |i: int| (node_label(root, path[i]), step_detail(root, a, package, path, i)),
    )
}

pub open spec fn all_step_items(
    root: Path,
    a: Analysis,
    package: Text,
    paths: Seq<Seq<NodeModel>>,
) -> Seq<Seq<ItemModel>> {
    Seq::new(paths.len(), |i: int| step_items(root, a, package, paths[i]))
}

/// The files of the cycles that the paths enter, among the first `n` findings.
pub open spec fn cycle_files(
    root: Path,
    found: Seq<Finding>,
    paths: Seq<Seq<NodeModel>>,
    n: int,
) -> Seq<Seq<Text>>
    decreases n,
{
    if n <= 0 {
        Seq::empty()
    } else {
        let before = cycle_files(root, found, paths, n - 1);
        let d = found[n - 1];
        if is_entered(d, paths) {
            before.push(local_names(root, d.1.1.1.1))
        } else {
            before
        }
    }
}

pub open spec fn local_names(root: Path, paths: Seq<Path>) -> Seq<Text> {
    paths.map_values(|p: Path| local_name(root, p))
}

/// What the interactive view shows.
pub open spec fn is_view(root: Path, a: Analysis, package: Text, m: WhyUiModel) -> bool {
    &&& m.package@ == package
    &&& m.base@ == a.base@
    &&& if a.seeds.direct_packages@.dom().contains(package) {
        let inputs = a.seeds.direct_packages@[package];
        &&& item_paths(m.paths@) == seq![
            input_items(root, inputs@, inputs.keys(), inputs.keys().len() as int).push(
                target_item(package),
            ),
        ]
        &&& text_lists(m.cycles@) == Seq::<Seq<Text>>::empty()
    } else {
        let paths = a.paths_to_target(a.target_named(package)->0);
        &&& item_paths(m.paths@) == all_step_items(root, a, package, paths)
        &&& text_lists(m.cycles@) == cycle_files(
            root,
            models(a.diagnostics@),
            paths,
            a.diagnostics@.len() as int,
        )
    }
}

fn list_input_items(root: &FilePath, inputs: &KeyMap<FilePath, Vec<String>>) -> (r: Vec<WhyUiItem>)
    ensures
        item_models(r@) == input_items(
            root@,
            inputs@,
            inputs.keys(),
            inputs.keys().len() as int,
        ),
{
    let ghost keys = inputs.keys();
    let n = inputs.len();
    let mut out: Vec<WhyUiItem> = Vec::new();
    let mut i: usize = 0;
    assert(item_models(out@) =~= Seq::empty());
    while i < n
        invariant
            i <= n,
            n == keys.len(),
            keys == inputs.keys(),
            item_models(out@) == input_items(root@, inputs@, keys, i as int),
        decreases n - i,
    {
        let changes = inputs.value_at(i);
        assert(texts_of(changes@).len() == changes@.len());
        let detail = if changes.len() == 0 {
            "This changed build input directly affects the package.".to_owned()
        } else {
            assert(models(changes@) =~= texts_of(changes@));
            join(changes, "\n")
        };
        let item = WhyUiItem { label: display_path(root, inputs.key_at(i)), detail };
        let ghost m = (item.label@, item.detail@);
        let ghost before = item_models(out@);
        out.push(item);
        assert(item_models(out@) =~= before.push(m));
        i += 1;
    }
    out
}

impl Analysis {
    fn write_step(&self, root: &FilePath, package: &str, path: &Vec<Node>, i: usize) -> (r: String)
        requires
            i < path.len(),
        ensures
            r@ == step_detail(root@, *self, package@, models(path@), i as int),
    {
        let ghost all = models(path@);
        if i + 1 < path.len() {
            assert(all[i as int] == path@[i as int]@ && all[i + 1] == path@[i + 1]@);
            let explanation = self.explain_hop(&path[i], &path[i + 1]);
            let mut out = join2(
                if i == 0 {
                    "This declaration changed.\nNext relationship: "
                } else {
                    "Next relationship: "
                },
                explanation.detail.as_str(),
            );
            let ghost front = out@;
            match display_edge_location(root, &explanation) {
                Some(place) => {
                    out.append("\nSource: ");
                    out.append(place.as_str());
                    assert(out@ =~= front + ("\nSource: "@ + place@));
                },
                None => {
                    assert(out@ =~= front + Seq::<char>::empty());
                },
            }
            out
        } else {
            join3("The impact reaches deployment target `", package, "`.")
        }
    }

    fn list_step_items(&self, root: &FilePath, package: &str, path: &Vec<Node>) -> (r: Vec<WhyUiItem>)
        ensures
            item_models(r@) == step_items(root@, *self, package@, models(path@)),
    {
        let ghost all = step_items(root@, *self, package@, models(path@));
        let mut out: Vec<WhyUiItem> = Vec::new();
        let mut i: usize = 0;
        while i < path.len()
            invariant
                i <= path.len(),
                all == step_items(root@, *self, package@, models(path@)),
                item_models(out@) =~= all.take(i as int),
            decreases path.len() - i,
        {
            let item = WhyUiItem {
                label: display_node(root, &path[i]),
                detail: self.write_step(root, package, path, i),
            };
            let ghost m = (item.label@, item.detail@);
            let ghost before = item_models(out@);
            out.push(item);
            proof {
                assert(models(path@)[i as int] == path@[i as int]@);
                assert(item_models(out@) =~= before.push(m));
            }
            i += 1;
        }
        assert(all.take(i as int) =~= all);
        out
    }

    fn list_cycle_files(&self, root: &FilePath, paths: &Vec<Vec<Node>>) -> (r: Vec<Vec<String>>)
        ensures
            text_lists(r@) == cycle_files(
                root@,
                models(self.diagnostics@),
                path_models(paths@),
                self.diagnostics@.len() as int,
            ),
    {
        let files = files_on(paths);
        let ghost all = models(self.diagnostics@);
        let ghost on = path_models(paths@);
        let mut out: Vec<Vec<String>> = Vec::new();
        let mut i: usize = 0;
        assert(text_lists(out@) =~= Seq::empty());
        while i < self.diagnostics.len()
            invariant
                i <= self.diagnostics.len(),
                all == models(self.diagnostics@),
                on == path_models(paths@),
                forall|f: Path| #[trigger] files@.contains(f) == is_on(path_models(paths@), f),
                text_lists(out@) == cycle_files(root@, all, on, i as int),
            decreases self.diagnostics.len() - i,
        {
            let d = &self.diagnostics[i];
            assert(all[i as int] == d.model());
            if enters_cycle(d, &files, paths) {
                let names = name_files(root, &d.members);
                let ghost m = texts_of(names@);
                let ghost before = text_lists(out@);
                out.push(names);
                assert(text_lists(out@) =~= before.push(m));
            }
            i += 1;
        }
        out
    }
}

fn name_files(root: &FilePath, files: &Vec<FilePath>) -> (r: Vec<String>)
    ensures
        texts_of(r@) == local_names(root@, models(files@)),
{
    let ghost all = local_names(root@, models(files@));
    let mut out: Vec<String> = Vec::new();
    let mut i: usize = 0;
    while i < files.len()
        invariant
            i <= files.len(),
            all == local_names(root@, models(files@)),
            texts_of(out@) =~= all.take(i as int),
        decreases files.len() - i,
    {
        let name = display_path(root, &files[i]);
        let ghost before = texts_of(out@);
        out.push(name);
        proof {
            assert(models(files@)[i as int] == files@[i as int]@);
            assert(texts_of(out@) =~= before.push(name@));
        }
        i += 1;
    }
    assert(all.take(i as int) =~= all);
    out
}

/// Prepares the interactive view of why a package is affected.
pub fn view_package(root: &FilePath, analysis: &Analysis, package: &str) -> (r: Result<
    WhyUiModel,
    String,
>)
    ensures
        match r {
            Ok(model) => why_fault(*analysis, package@) is None && is_view(
                root@,
                *analysis,
                package@,
                model,
            ),
            Err(fault) => why_fault(*analysis, package@) == Some(fault@),
        },
{
    if analysis.task == TaskKind::Typecheck {
        return Err("`why` for typecheck queries is not implemented yet".to_owned());
    }
    match analysis.seeds.direct_packages.get(&package.to_owned()) {
        Some(inputs) => {
            let mut items = list_input_items(root, inputs);
            let ghost before = item_models(items@);
            let detail = join3("Deployment target `", package, "` is directly affected.");
            items.push(WhyUiItem { label: join2("target ", package), detail });
            assert(item_models(items@) =~= before.push(target_item(package@)));
            let ghost shown = item_models(items@);
            let mut paths: Vec<Vec<WhyUiItem>> = Vec::new();
            paths.push(items);
            let cycles: Vec<Vec<String>> = Vec::new();
            assert(item_paths(paths@) =~= seq![shown]);
            assert(text_lists(cycles@) =~= Seq::empty());
            return Ok(
                WhyUiModel {
                    package: package.to_owned(),
                    base: analysis.base.clone(),
                    paths,
                    cycles,
                },
            );
        },
        None => {},
    }
    let paths = match analysis.find_paths(package) {
        Ok(paths) => paths,
        Err(fault) => {
            return Err(fault);
        },
    };
    let ghost on = path_models(paths@);
    let ghost all = all_step_items(root@, *analysis, package@, on);
    let mut shown: Vec<Vec<WhyUiItem>> = Vec::new();
    let mut i: usize = 0;
    while i < paths.len()
        invariant
            i <= paths.len(),
            on == path_models(paths@),
            all == all_step_items(root@, *analysis, package@, on),
            item_paths(shown@) =~= all.take(i as int),
        decreases paths.len() - i,
    {
        let items = analysis.list_step_items(root, package, &paths[i]);
        let ghost m = item_models(items@);
        let ghost before = item_paths(shown@);
        shown.push(items);
        proof {
            assert(on[i as int] == models(paths@[i as int]@));
            assert(item_paths(shown@) =~= before.push(m));
        }
        i += 1;
    }
    assert(all.take(i as int) =~= all);
    let cycles = analysis.list_cycle_files(root, &paths);
    Ok(
        WhyUiModel {
            package: package.to_owned(),
            base: analysis.base.clone(),
            paths: shown,
            cycles,
        },
    )
}

} // verus!
