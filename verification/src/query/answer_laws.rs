//! What holds of what plugins add and of the answers to queries.
use vstd::prelude::*;

use crate::collections::{first_from, first_from_fits, union_over};
use crate::diagnostics::Severity;
use crate::graph::edge_laws::{exports_nothing, over_has, over_holds};
use crate::graph::links::{edges_in, findings_in, Edge, Finding};
use crate::graph::model::DependencyGraph;
use crate::graph::node::NodeModel;
use crate::graph::resolve::{normal, World};
use crate::order::{models, Key};
use crate::parser::syntax::is_source_extension;
use crate::parser::MODULE_INIT;
use crate::path::{extension_of, joined_path, shown};
use crate::plugin::{PluginEdge, PluginEdgeKind, PluginOutput, PluginTarget};
use crate::query::extend::{
    glob_match, is_extended, named_roots, plugin_edge, plugin_root_edges, plugin_target_edges,
    roots_of, source_root,
};
use crate::query::report::{
    finding_line, finding_lines, local_name, member_lines, node_label, severity_name,
};
use crate::query::why::{hop_line, step_lines, why_fault};
use crate::query::{Analysis, Path, TaskKind, Text, WarningPolicy};
use crate::text::decimal;
use crate::workspace::Package;

verus! {

/// Plugin edge `i` of this kind leads from `c` to `d`; paths are seen from the root.
pub open spec fn plugin_says(
    root: Path,
    list: Seq<PluginEdge>,
    kind: PluginEdgeKind,
    i: int,
    c: NodeModel,
    d: NodeModel,
) -> bool {
    &&& 0 <= i < list.len()
    &&& list[i].kind == kind
    &&& c == (joined_path(root, list[i].consumer.path@), list[i].consumer.symbol@)
    &&& d == (joined_path(root, list[i].dependency.path@), list[i].dependency.symbol@)
}

proof fn plugin_edges_are_said(
    root: Path,
    list: Seq<PluginEdge>,
    kind: PluginEdgeKind,
    c: NodeModel,
    d: NodeModel,
)
    ensures
        union_over(list, plugin_edge(root, kind)).contains((c, d)) <==> c != d && exists|i: int|
            #[trigger] plugin_says(root, list, kind, i, c, d),
{
    let f = plugin_edge(root, kind);
    if union_over(list, f).contains((c, d)) {
        let e = over_has(list, f, (c, d));
        let i = choose|i: int| 0 <= i < list.len() && list[i] == e;
        assert(plugin_says(root, list, kind, i, c, d));
    }
    if c != d && exists|i: int| #[trigger] plugin_says(root, list, kind, i, c, d) {
        let i = choose|i: int| #[trigger] plugin_says(root, list, kind, i, c, d);
        assert(f(list[i]).contains((c, d)));
        over_holds(list, f, list[i], (c, d));
    }
}

/// Root `j` of plugin target `i` is a known module, `c` is the node of the target and `d` part of
/// the module: its initialisation, an export, or a run-time symbol where it exports nothing.
pub open spec fn plugin_starts(
    w: World,
    root: Path,
    list: Seq<PluginTarget>,
    i: int,
    j: int,
    c: NodeModel,
    d: NodeModel,
) -> bool {
    let path = normal(w.disk, joined_path(root, list[i].roots@[j]@));
    let m = w.modules[path];
    &&& 0 <= i < list.len()
    &&& 0 <= j < list[i].roots@.len()
    &&& c == (seq!["<target>"@], list[i].package@)
    &&& w.modules.dom().contains(path)
    &&& {
        ||| d == (path, MODULE_INIT@)
        ||| w.everything(false, path).contains(d)
        ||| {
            &&& exports_nothing(w, path)
            &&& d.0 == path
            &&& m.symbols@.dom().contains(d.1)
            &&& m.symbols@[d.1].runtime
        }
    }
}

proof fn plugin_roots_start(
    w: World,
    root: Path,
    list: Seq<PluginTarget>,
    c: NodeModel,
    d: NodeModel,
)
    ensures
        union_over(list, plugin_target_edges(w, root)).contains((c, d)) <==> c != d && exists|
            i: int,
            j: int,
        | #[trigger] plugin_starts(w, root, list, i, j, c, d),
{
    let f = plugin_target_edges(w, root);
    let e: Edge = (c, d);
    assert forall|path: Path| (#[trigger] w.everything(false, path) == Set::<NodeModel>::empty())
        == exports_nothing(w, path) by {
        if exports_nothing(w, path) {
            assert(w.everything(false, path) =~= Set::empty());
        }
    }
    if union_over(list, f).contains(e) {
        let t = over_has(list, f, e);
        let i = choose|i: int| 0 <= i < list.len() && list[i] == t;
        let g = plugin_root_edges(w, root, t.package@);
        let p = over_has(t.roots@, g, e);
        let j = choose|j: int| 0 <= j < t.roots@.len() && t.roots@[j] == p;
        assert(plugin_starts(w, root, list, i, j, c, d));
    }
    if c != d && exists|i: int, j: int| #[trigger] plugin_starts(w, root, list, i, j, c, d) {
        let (i, j) = choose|i: int, j: int| #[trigger] plugin_starts(w, root, list, i, j, c, d);
        let t = list[i];
        let g = plugin_root_edges(w, root, t.package@);
        assert(g(t.roots@[j]).contains(e));
        over_holds(t.roots@, g, t.roots@[j], e);
        assert(f(t).contains(e));
        over_holds(list, f, t, e);
    }
}

/// A graph that takes in what plugins say has its own edges, those that they name and those from
/// their targets to the roots, and no others; type edges are kept apart.
pub proof fn plugins_add_what_they_say(
    before: DependencyGraph,
    root: Path,
    packages: Seq<Package>,
    output: PluginOutput,
    after: DependencyGraph,
    c: NodeModel,
    d: NodeModel,
)
    requires
        is_extended(before, root, packages, output, after),
    ensures
        edges_in(after.edges).contains((c, d)) <==> {
            ||| edges_in(before.edges).contains((c, d))
            ||| c != d && exists|i: int| #[trigger]
                plugin_says(root, output.edges@, PluginEdgeKind::Runtime, i, c, d)
            ||| c != d && exists|i: int, j: int| #[trigger]
                plugin_starts(before.world(), root, output.targets@, i, j, c, d)
        },
        edges_in(after.type_edges).contains((c, d)) <==> {
            ||| edges_in(before.type_edges).contains((c, d))
            ||| c != d && exists|i: int| #[trigger]
                plugin_says(root, output.edges@, PluginEdgeKind::Type, i, c, d)
        },
        after.modules == before.modules,
{
    plugin_edges_are_said(root, output.edges@, PluginEdgeKind::Runtime, c, d);
    plugin_edges_are_said(root, output.edges@, PluginEdgeKind::Type, c, d);
    plugin_roots_start(before.world(), root, output.targets@, c, d);
}

/// Exclusion `i` is of findings with this code, everywhere or in files that match its pattern.
pub open spec fn excludes(root: Path, output: PluginOutput, i: int, d: Finding) -> bool {
    let x = output.exclusions@[i];
    &&& 0 <= i < output.exclusions@.len()
    &&& x.code@ == d.0
    &&& x.path matches Some(pattern) ==> (d.1.1.1.0 matches Some(path) && glob_match(
        pattern@,
        shown(if root.is_prefix_of(path) {
            path.skip(root.len() as int)
        } else {
            path
        }),
    ))
}

/// A finding that an exclusion is of is not kept. A finding of a plugin that none is of is.
pub proof fn exclusions_drop_findings(
    before: DependencyGraph,
    root: Path,
    packages: Seq<Package>,
    output: PluginOutput,
    after: DependencyGraph,
    d: Finding,
    k: int,
)
    requires
        is_extended(before, root, packages, output, after),
    ensures
        (exists|i: int| #[trigger] excludes(root, output, i, d)) ==> !findings_in(
            after.diagnostics@,
        ).contains(d),
        0 <= k < output.diagnostics@.len() && d == output.diagnostics@[k].model() && (forall|i: int|
            !#[trigger] excludes(root, output, i, d)) ==> findings_in(after.diagnostics@).contains(d),
{
    assert forall|i: int| 0 <= i < output.exclusions@.len() implies
        crate::query::extend::is_excluded_by(root, #[trigger] output.exclusions@[i], d) == excludes(
        root,
        output,
        i,
        d,
    ) by {}
    if exists|i: int| #[trigger] excludes(root, output, i, d) {
        let i = choose|i: int| #[trigger] excludes(root, output, i, d);
        assert(crate::query::extend::is_excluded_by(root, output.exclusions@[i], d));
    }
    if 0 <= k < output.diagnostics@.len() && d == output.diagnostics@[k].model() {
        let all = models(output.diagnostics@);
        assert(all[k] == d);
        assert(findings_in(output.diagnostics@).contains(d));
    }
}

/// The roots that plugins name are files of the graph where they are sources.
pub proof fn named_roots_are_sources(root: Path, targets: Seq<PluginTarget>, path: Path)
    ensures
        named_roots(root, targets).contains(path) <==> is_source_extension(extension_of(path))
            && exists|i: int, j: int|
            0 <= i < targets.len() && 0 <= j < targets[i].roots@.len() && path == joined_path(
                root,
                (#[trigger] targets[i].roots@[j])@,
            ),
{
    let f = roots_of(root);
    let g = source_root(root);
    if named_roots(root, targets).contains(path) {
        let t = over_has(targets, f, path);
        let i = choose|i: int| 0 <= i < targets.len() && targets[i] == t;
        let p = over_has(t.roots@, g, path);
        let j = choose|j: int| 0 <= j < t.roots@.len() && t.roots@[j] == p;
        assert(path == joined_path(root, targets[i].roots@[j]@));
    }
    if is_source_extension(extension_of(path)) && exists|i: int, j: int|
        0 <= i < targets.len() && 0 <= j < targets[i].roots@.len() && path == joined_path(
            root,
            (#[trigger] targets[i].roots@[j])@,
        ) {
        let (i, j) = choose|i: int, j: int|
            0 <= i < targets.len() && 0 <= j < targets[i].roots@.len() && path == joined_path(
                root,
                (#[trigger] targets[i].roots@[j])@,
            );
        assert(g(targets[i].roots@[j]).contains(path));
        over_holds(targets[i].roots@, g, targets[i].roots@[j], path);
        assert(f(targets[i]).contains(path));
        over_holds(targets, f, targets[i], path);
    }
}

/// A path is told step by step: a numbered line for each node, and between two nodes a line that
/// says how the path goes on, and where.
pub proof fn paths_are_told_step_by_step(
    root: Path,
    a: Analysis,
    path: Seq<NodeModel>,
    n: int,
    k: int,
)
    requires
        0 < n <= path.len(),
        0 <= k < n,
    ensures
        step_lines(root, a, path, n).len() == if n < path.len() {
            2 * n
        } else {
            2 * n - 1
        },
        step_lines(root, a, path, n)[2 * k] == "  "@ + decimal((k + 1) as nat) + ". "@ + node_label(
            root,
            path[k],
        ),
        k + 1 < path.len() && (k < n - 1 || n < path.len()) ==> step_lines(root, a, path, n)[2 * k + 1]
            == hop_line(root, a.hop(path[k], path[k + 1])),
    decreases n,
{
    let list = step_lines(root, a, path, n);
    if n > 1 {
        let before = step_lines(root, a, path, n - 1);
        paths_are_told_step_by_step(
            root,
            a,
            path,
            n - 1,
            if k < n - 1 {
                k
            } else {
                0
            },
        );
        assert(before.len() == 2 * (n - 1));
        if k < n - 1 {
            assert(list[2 * k] == before[2 * k]);
            assert(list[2 * k + 1] == before[2 * k + 1]);
        }
    } else {
        assert(step_lines(root, a, path, 0).len() == 0);
    }
}

/// How a path goes on is told with the reason and, where it is known, the place.
pub proof fn hops_are_told_with_their_place(root: Path, a: Analysis, c: NodeModel, d: NodeModel)
    ensures
        ({
            let reason = a.hop(d, c);
            let line = hop_line(root, reason);
            match (reason.path, reason.location) {
                (None, _) => line == "     \u{2193} "@ + reason.detail,
                (Some(path), None) => line == "     \u{2193} "@ + reason.detail + " at "@ + local_name(
                    root,
                    path,
                ),
                (Some(path), Some(at)) => line == "     \u{2193} "@ + reason.detail + " at "@ + (
                local_name(root, path) + ":"@ + decimal(at.line as nat) + ":"@ + decimal(
                    at.column as nat,
                )),
            }
        }),
{
    let reason = a.hop(d, c);
    let none = Seq::<char>::empty();
    assert("     \u{2193} "@ + reason.detail + none =~= "     \u{2193} "@ + reason.detail);
    if let Some(path) = reason.path {
        let place = crate::query::report::reason_place(root, reason)->0;
        assert("     \u{2193} "@ + reason.detail + (" at "@ + place) =~= "     \u{2193} "@
            + reason.detail + " at "@ + place);
    }
}

/// A node is told as the file, seen from the root, and the symbol; a target as its package.
pub proof fn nodes_are_told_by_file_and_symbol(root: Path, inner: Path, symbol: Text)
    requires
        root + inner != seq!["<target>"@],
    ensures
        node_label(root, (root + inner, symbol)) == shown(inner) + "#"@ + symbol,
        node_label(root, (seq!["<target>"@], symbol)) == "target "@ + symbol,
{
    let path = root + inner;
    assert(path.take(root.len() as int) =~= root);
    assert(root.is_prefix_of(path));
    assert(path.skip(root.len() as int) =~= inner);
}

/// Why is not answered for type checks, for packages without a target and for targets without an
/// impact path, unless a change concerns the package as a whole.
pub proof fn why_has_three_faults(a: Analysis, package: Text, i: int)
    ensures
        a.task == TaskKind::Typecheck ==> why_fault(a, package) == Some(
            "`why` for typecheck queries is not implemented yet"@,
        ),
        a.task == TaskKind::Deploy && a.seeds.direct_packages@.dom().contains(package) ==> why_fault(
            a,
            package,
        ) is None,
        a.task == TaskKind::Deploy && !a.seeds.direct_packages@.dom().contains(package) && (forall|k: int|
            0 <= k < a.graph.targets@.len() ==> (#[trigger] a.graph.targets@[k]).package@ != package)
            ==> why_fault(a, package) == Some("target package '"@ + package + "' was not found"@),
        a.task == TaskKind::Deploy && !a.seeds.direct_packages@.dom().contains(package) && 0 <= i
            < a.graph.targets@.len() && a.graph.targets@[i].package@ == package && (forall|k: int|
            0 <= k < i ==> (#[trigger] a.graph.targets@[k]).package@ != package) ==> why_fault(a, package)
            == if a.paths_to_target(i).len() == 0 {
            Some("target package '"@ + package + "' is not affected"@)
        } else {
            None
        },
{
    let p = a.is_target_named(package);
    let n = a.graph.targets@.len() as int;
    first_from_fits(p, 0, n);
    if let Some(k) = first_from(p, 0, n) {
        assert(p(k));
        assert(a.graph.targets@[k].package@ == package);
        if i < k && 0 <= i {
            assert(!p(i));
        }
    }
    if 0 <= i < n && a.graph.targets@[i].package@ == package {
        assert(p(i));
    }
}

/// Every finding is told in order: errors always, warnings unless they are off, and remarks where
/// they are wanted; behind its line stand the files that take part in it.
pub proof fn findings_are_told_in_order(
    root: Path,
    list: Seq<Finding>,
    warnings: WarningPolicy,
    include_info: bool,
    n: int,
)
    requires
        0 < n <= list.len(),
    ensures
        ({
            let d = list[n - 1];
            let before = finding_lines(root, list, warnings, include_info, n - 1);
            let told = before + seq![
                severity_name(d.1.0) + " "@ + d.0 + (match d.1.1.1.0 {
                    Some(path) => if local_name(root, path).len() == 0 {
                        Seq::empty()
                    } else {
                        " "@ + local_name(root, path)
                    },
                    None => Seq::empty(),
                }) + ": "@ + d.1.1.0,
            ] + Seq::new(
                d.1.1.1.1.len(),
                |i: int| "  - "@ + local_name(root, d.1.1.1.1[i]),
            );
            &&& d.1.0 == Severity::Error || (d.1.0 == Severity::Warning && warnings
                != WarningPolicy::Off) || (d.1.0 == Severity::Info && include_info) ==> finding_lines(
                root,
                list,
                warnings,
                include_info,
                n,
            ) == told
            &&& !(d.1.0 == Severity::Error || (d.1.0 == Severity::Warning && warnings
                != WarningPolicy::Off) || (d.1.0 == Severity::Info && include_info)) ==> finding_lines(
                root,
                list,
                warnings,
                include_info,
                n,
            ) == before
        }),
{
    let d = list[n - 1];
    let members = d.1.1.1.1;
    members_are_told(root, members, members.len() as int);
    let before = finding_lines(root, list, warnings, include_info, n - 1);
    assert(before.push(finding_line(root, d)) =~= before + seq![finding_line(root, d)]);
}

proof fn members_are_told(root: Path, members: Seq<Path>, n: int)
    requires
        0 <= n <= members.len(),
    ensures
        member_lines(root, members, n) == Seq::new(
            n as nat,
            |i: int| "  - "@ + local_name(root, members[i]),
        ),
    decreases n,
{
    if n > 0 {
        members_are_told(root, members, n - 1);
    }
    assert(member_lines(root, members, n) =~= Seq::new(
        n as nat,
        |i: int| "  - "@ + local_name(root, members[i]),
    ));
}

} // verus!
