//! What plugins add to a dependency graph.
use vstd::prelude::*;

use crate::collections::{
    ascending, push_to_set, union_over, union_over_all, union_over_next, union_over_none, KeySet,
};
use crate::diagnostics::Diagnostic;
use crate::graph::findings::{settled, sorted_findings};
use crate::graph::links::{
    adding_keys_twice, adding_no_keys, adds_keys, edges_in, fan, findings_in, report, Edge, Finding,
};
use crate::graph::model::{is_cycle_finding, DependencyGraph};
use crate::graph::node::{Node, NodeModel};
use crate::graph::resolve::World;
use crate::graph::targets::{target_models, with_target, without_virtual, TargetModel};
use crate::order::{models, Key};
use crate::parser::is_source_file;
use crate::parser::syntax::is_source_extension;
use crate::path::{extension_of, joined_path, shown, FilePath};
use crate::plugin::{
    DiagnosticExclusion, PluginEdge, PluginEdgeKind, PluginNode, PluginOutput, PluginTarget,
};
use crate::text::same;
use crate::workspace::owner::{relative, relative_to, Path};
use crate::workspace::Package;

verus! {

pub type Text = Seq<char>;

/// What is wrong with a pattern, if anything.
pub uninterp spec fn glob_fault(pattern: Seq<char>) -> Option<Seq<char>>;

/// `globset::Glob::new` and `globset::GlobSet::new`: whether a pattern is one, and if not, what
/// their errors say.
#[verifier::external_body]
fn find_glob_fault(pattern: &str) -> (r: Option<String>)
    ensures
        r.model() == glob_fault(pattern@),
{
    let set = globset::Glob::new(pattern).and_then(|glob| globset::GlobSet::new([glob]));
    set.err().map(|error| error.to_string())
}

/// A path matches a pattern.
pub uninterp spec fn glob_match(pattern: Seq<char>, path: Seq<char>) -> bool;

/// `globset::GlobSet::is_match` of the set of one pattern; where that is no pattern, nothing
/// matches.
#[verifier::external_body]
fn matches_glob(pattern: &str, path: &str) -> (r: bool)
    ensures
        r == glob_match(pattern@, path@),
{
    let set = globset::Glob::new(pattern).and_then(|glob| globset::GlobSet::new([glob]));
    set.is_ok_and(|set| set.is_match(path))
}

/// The roots that plugins name and that are modules.
pub open spec fn named_roots(root: Path, targets: Seq<PluginTarget>) -> Set<Path> {
    union_over(targets, roots_of(root))
}

pub open spec fn roots_of(root: Path) -> spec_fn(PluginTarget) -> Set<Path> {
    |t: PluginTarget| union_over(t.roots@, source_root(root))
}

pub open spec fn source_root(root: Path) -> spec_fn(FilePath) -> Set<Path> {
    |p: FilePath|
        {
            let path = joined_path(root, p@);
            if is_source_extension(extension_of(path)) {
                set![path]
            } else {
                Set::empty()
            }
        }
}

fn add_named_roots(root: &FilePath, target: &PluginTarget, found: &mut KeySet<FilePath>)
    ensures
        final(found)@ == old(found)@.union((roots_of(root@))(*target)),
{
    let ghost start = found@;
    let ghost list = target.roots@;
    let ghost f = source_root(root@);
    let n = target.roots.len();
    let mut i: usize = 0;
    proof {
        union_over_none(list.take(0), f);
        assert(start.union(Set::empty()) =~= start);
    }
    while i < n
        invariant
            i <= n,
            n == list.len(),
            list == target.roots@,
            f == source_root(root@),
            found@ == start.union(union_over(list.take(i as int), f)),
        decreases n - i,
    {
        let path = root.join(&target.roots[i]);
        if is_source_file(&path) {
            found.insert(path);
        }
        proof {
            union_over_next(list, f, i as int);
            assert(found@ =~= start.union(union_over(list.take(i + 1), f)));
        }
        i += 1;
    }
    proof {
        union_over_all(list, f, n as int);
    }
}

/// The files of a workspace and the roots that plugins name, in ascending order and each once.
pub fn files_with_roots(root: &FilePath, files: &Vec<FilePath>, targets: &Vec<PluginTarget>) -> (r: Vec<
    FilePath,
>)
    ensures
        models(r@).to_set() == models(files@).to_set().union(named_roots(root@, targets@)),
        ascending::<FilePath>(models(r@)),
{
    let mut found: KeySet<FilePath> = KeySet::new();
    let ghost all = models(files@);
    let mut k: usize = 0;
    assert(found@ =~= all.take(0).to_set());
    while k < files.len()
        invariant
            k <= files.len(),
            all == models(files@),
            found@ == all.take(k as int).to_set(),
        decreases files.len() - k,
    {
        found.insert(files[k].dup());
        proof {
            assert(all.take(k + 1) =~= all.take(k as int).push(all[k as int]));
            push_to_set(all.take(k as int), all[k as int]);
        }
        k += 1;
    }
    assert(all.take(k as int) =~= all);
    let ghost start = found@;
    let ghost f = roots_of(root@);
    let n = targets.len();
    let mut i: usize = 0;
    proof {
        union_over_none(targets@.take(0), f);
        assert(start.union(Set::empty()) =~= start);
    }
    while i < n
        invariant
            i <= n,
            n == targets@.len(),
            f == roots_of(root@),
            found@ == start.union(union_over(targets@.take(i as int), f)),
        decreases n - i,
    {
        add_named_roots(root, &targets[i], &mut found);
        proof {
            union_over_next(targets@, f, i as int);
            assert(found@ =~= start.union(union_over(targets@.take(i + 1), f)));
        }
        i += 1;
    }
    proof {
        union_over_all(targets@, f, n as int);
    }
    list_paths(&found)
}

/// The paths of a set in ascending order.
pub(crate) fn list_paths(found: &KeySet<FilePath>) -> (r: Vec<FilePath>)
    ensures
        models(r@) == found.list(),
        ascending::<FilePath>(models(r@)),
{
    let n = found.len();
    let mut out: Vec<FilePath> = Vec::new();
    let mut k: usize = 0;
    while k < n
        invariant
            k <= n,
            n == found.list().len(),
            models(out@) =~= found.list().take(k as int),
        decreases n - k,
    {
        let ghost before = models(out@);
        let item = found.at(k).dup();
        out.push(item);
        assert(models(out@) =~= before.push(item.model()));
        k += 1;
    }
    assert(found.list().take(n as int) =~= found.list());
    out
}

/// The edges of the targets that plugins name.
pub open spec fn plugin_target_edges(w: World, root: Path) -> spec_fn(PluginTarget) -> Set<Edge> {
    |t: PluginTarget| union_over(t.roots@, plugin_root_edges(w, root, t.package@))
}

pub open spec fn plugin_root_edges(w: World, root: Path, package: Text) -> spec_fn(FilePath) -> Set<
    Edge,
> {
    |p: FilePath| w.edges_to_root(package, joined_path(root, p@))
}

/// The targets after the first `n` that plugins name.
pub open spec fn plugin_targets(
    known: Seq<TargetModel>,
    targets: Seq<PluginTarget>,
    n: int,
) -> Seq<TargetModel>
    decreases n,
{
    if n <= 0 {
        known
    } else {
        with_target(plugin_targets(known, targets, n - 1), targets[n - 1].package@)
    }
}

/// The findings that are left once the first `n` targets of plugins are known.
pub open spec fn without_resolved(found: Seq<Finding>, targets: Seq<PluginTarget>, n: int) -> Seq<
    Finding,
>
    decreases n,
{
    if n <= 0 {
        found
    } else {
        without_virtual(without_resolved(found, targets, n - 1), targets[n - 1].package@)
    }
}

pub open spec fn plugin_node(root: Path, n: PluginNode) -> NodeModel {
    (joined_path(root, n.path@), n.symbol@)
}

/// The edge that a plugin names, where it is of this kind.
pub open spec fn plugin_edge(root: Path, kind: PluginEdgeKind) -> spec_fn(PluginEdge) -> Set<Edge> {
    |e: PluginEdge|
        if e.kind == kind {
            fan(plugin_node(root, e.consumer), set![plugin_node(root, e.dependency)])
        } else {
            Set::empty()
        }
}

/// A finding that an exclusion drops.
pub open spec fn is_excluded_by(root: Path, x: DiagnosticExclusion, d: Finding) -> bool {
    d.0 == x.code@ && match x.path {
        None => true,
        Some(pattern) => match d.1.1.1.0 {
            Some(path) => glob_match(pattern@, shown(relative_to(path, root))),
            None => false,
        },
    }
}

/// The findings that no exclusion drops.
pub open spec fn without_excluded(
    root: Path,
    exclusions: Seq<DiagnosticExclusion>,
    found: Set<Finding>,
) -> Set<Finding> {
    found.filter(
        |d: Finding|
            forall|i: int|
                0 <= i < exclusions.len() ==> !is_excluded_by(root, #[trigger] exclusions[i], d),
    )
}

/// The exclusion whose pattern is none.
pub open spec fn pattern_fault(x: DiagnosticExclusion) -> Option<Text> {
    match x.path {
        Some(pattern) => glob_fault(pattern@),
        None => None,
    }
}

/// What is wrong with the first exclusion from the `i`th whose pattern is none.
pub open spec fn first_fault(exclusions: Seq<DiagnosticExclusion>, i: int) -> Option<Text>
    decreases exclusions.len() - i,
{
    if i >= exclusions.len() {
        None
    } else if pattern_fault(exclusions[i]) is Some {
        pattern_fault(exclusions[i])
    } else {
        first_fault(exclusions, i + 1)
    }
}

/// A graph that takes in what plugins say.
pub open spec fn is_extended(
    before: DependencyGraph,
    root: Path,
    packages: Seq<Package>,
    output: PluginOutput,
    after: DependencyGraph,
) -> bool {
    let n = output.targets@.len() as int;
    let edges = edges_in(before.edges).union(
        union_over(output.targets@, plugin_target_edges(before.world(), root)),
    ).union(union_over(output.edges@, plugin_edge(root, PluginEdgeKind::Runtime)));
    let targets = plugin_targets(target_models(before.targets@), output.targets@, n);
    let left = without_resolved(models(before.diagnostics@), output.targets@, n).to_set();
    &&& after.same_modules(before)
    &&& after.typed_registry_edges == before.typed_registry_edges
    &&& edges_in(after.edges) == edges
    &&& edges_in(after.type_edges) == edges_in(before.type_edges).union(
        union_over(output.edges@, plugin_edge(root, PluginEdgeKind::Type)),
    )
    &&& adds_keys(before.edges, after.edges)
    &&& adds_keys(before.type_edges, after.type_edges)
    &&& target_models(after.targets@) == targets
    &&& ascending::<Diagnostic>(models(after.diagnostics@))
    &&& findings_in(after.diagnostics@) == without_excluded(
        root,
        output.exclusions@,
        settled(
            left.filter(|d: Finding| !is_cycle_finding(d)),
            packages,
            edges,
            targets,
        ).union(findings_in(output.diagnostics@)),
    )
}

fn absolute_roots(root: &FilePath, target: &PluginTarget) -> (r: Vec<FilePath>)
    ensures
        r@.len() == target.roots@.len(),
        forall|i: int|
            0 <= i < r@.len() ==> (#[trigger] r@[i])@ == joined_path(root@, target.roots@[i]@),
{
    let mut out: Vec<FilePath> = Vec::new();
    let mut i: usize = 0;
    while i < target.roots.len()
        invariant
            i <= target.roots.len(),
            out.len() == i,
            forall|k: int|
                0 <= k < i ==> (#[trigger] out@[k])@ == joined_path(root@, target.roots@[k]@),
        decreases target.roots.len() - i,
    {
        out.push(root.join(&target.roots[i]));
        i += 1;
    }
    out
}

fn add_plugin_targets(graph: &mut DependencyGraph, root: &FilePath, targets: &Vec<PluginTarget>)
    ensures
        final(graph).same_modules(*old(graph)),
        final(graph).type_edges == old(graph).type_edges,
        final(graph).typed_registry_edges == old(graph).typed_registry_edges,
        edges_in(final(graph).edges) == edges_in(old(graph).edges).union(
            union_over(targets@, plugin_target_edges(old(graph).world(), root@)),
        ),
        adds_keys(old(graph).edges, final(graph).edges),
        target_models(final(graph).targets@) == plugin_targets(
            target_models(old(graph).targets@),
            targets@,
            targets@.len() as int,
        ),
        models(final(graph).diagnostics@) == without_resolved(
            models(old(graph).diagnostics@),
            targets@,
            targets@.len() as int,
        ),
{
    let ghost start = *graph;
    let ghost w = graph.world();
    let ghost f = plugin_target_edges(w, root@);
    let ghost edges = edges_in(graph.edges);
    let n = targets.len();
    let mut i: usize = 0;
    proof {
        union_over_none(targets@.take(0), f);
        assert(edges.union(Set::empty()) =~= edges);
        adding_no_keys(graph.edges);
    }
    while i < n
        invariant
            i <= n,
            n == targets@.len(),
            w == start.world(),
            f == plugin_target_edges(w, root@),
            edges == edges_in(start.edges),
            graph.same_modules(start),
            graph.type_edges == start.type_edges,
            graph.typed_registry_edges == start.typed_registry_edges,
            adds_keys(start.edges, graph.edges),
            edges_in(graph.edges) == edges.union(union_over(targets@.take(i as int), f)),
            target_models(graph.targets@) == plugin_targets(
                target_models(start.targets@),
                targets@,
                i as int,
            ),
            models(graph.diagnostics@) == without_resolved(
                models(start.diagnostics@),
                targets@,
                i as int,
            ),
        decreases n - i,
    {
        let target = &targets[i];
        let roots = absolute_roots(root, target);
        let ghost g = w.root_edges(target.package@);
        let ghost h = plugin_root_edges(w, root@, target.package@);
        proof {
            assert(graph.world() == w);
            assert(union_over(roots@, g) =~= union_over(target.roots@, h)) by {
                assert forall|k: int| 0 <= k < roots@.len() implies #[trigger] g(roots@[k]) == h(
                    target.roots@[k],
                ) by {
                    assert(roots@[k]@ == joined_path(root@, target.roots@[k]@));
                }
                assert forall|e: Edge| union_over(roots@, g).contains(e) implies union_over(
                    target.roots@,
                    h,
                ).contains(e) by {
                    let k = choose|k: int| 0 <= k < roots@.len() && #[trigger] g(roots@[k]).contains(e);
                    assert(h(target.roots@[k]).contains(e));
                }
                assert forall|e: Edge| union_over(target.roots@, h).contains(e) implies union_over(
                    roots@,
                    g,
                ).contains(e) by {
                    let k = choose|k: int|
                        0 <= k < target.roots@.len() && #[trigger] h(target.roots@[k]).contains(e);
                    assert(g(roots@[k]).contains(e));
                }
            }
        }
        let ghost before = *graph;
        graph.add_target_roots(target.package.as_str(), &roots);
        proof {
            adding_keys_twice(start.edges, before.edges, graph.edges);
            union_over_next(targets@, f, i as int);
            assert(edges_in(graph.edges) =~= edges.union(union_over(targets@.take(i + 1), f)));
        }
        i += 1;
    }
    proof {
        union_over_all(targets@, f, n as int);
    }
}

fn plugin_node_at(root: &FilePath, n: &PluginNode) -> (r: Node)
    ensures
        r@ == plugin_node(root@, *n),
{
    Node::new(root.join(&n.path), n.symbol.clone())
}

fn add_plugin_edges(graph: &mut DependencyGraph, root: &FilePath, edges: &Vec<PluginEdge>)
    ensures
        final(graph).same_modules(*old(graph)),
        final(graph).typed_registry_edges == old(graph).typed_registry_edges,
        final(graph).targets == old(graph).targets,
        final(graph).diagnostics == old(graph).diagnostics,
        edges_in(final(graph).edges) == edges_in(old(graph).edges).union(
            union_over(edges@, plugin_edge(root@, PluginEdgeKind::Runtime)),
        ),
        edges_in(final(graph).type_edges) == edges_in(old(graph).type_edges).union(
            union_over(edges@, plugin_edge(root@, PluginEdgeKind::Type)),
        ),
        adds_keys(old(graph).edges, final(graph).edges),
        adds_keys(old(graph).type_edges, final(graph).type_edges),
{
    let ghost start = *graph;
    let ghost f = plugin_edge(root@, PluginEdgeKind::Runtime);
    let ghost g = plugin_edge(root@, PluginEdgeKind::Type);
    let ghost runtime = edges_in(graph.edges);
    let ghost types = edges_in(graph.type_edges);
    let n = edges.len();
    let mut i: usize = 0;
    proof {
        union_over_none(edges@.take(0), f);
        union_over_none(edges@.take(0), g);
        assert(runtime.union(Set::empty()) =~= runtime);
        assert(types.union(Set::empty()) =~= types);
        adding_no_keys(graph.edges);
        adding_no_keys(graph.type_edges);
    }
    while i < n
        invariant
            i <= n,
            n == edges@.len(),
            f == plugin_edge(root@, PluginEdgeKind::Runtime),
            g == plugin_edge(root@, PluginEdgeKind::Type),
            graph.same_modules(start),
            graph.typed_registry_edges == start.typed_registry_edges,
            graph.targets == start.targets,
            graph.diagnostics == start.diagnostics,
            adds_keys(start.edges, graph.edges),
            adds_keys(start.type_edges, graph.type_edges),
            edges_in(graph.edges) == runtime.union(union_over(edges@.take(i as int), f)),
            edges_in(graph.type_edges) == types.union(union_over(edges@.take(i as int), g)),
        decreases n - i,
    {
        let edge = &edges[i];
        let ghost before = *graph;
        let type_only = match edge.kind {
            PluginEdgeKind::Runtime => false,
            PluginEdgeKind::Type => true,
        };
        graph.add_external_edge(
            plugin_node_at(root, &edge.consumer),
            plugin_node_at(root, &edge.dependency),
            type_only,
        );
        proof {
            adding_keys_twice(start.edges, before.edges, graph.edges);
            adding_keys_twice(start.type_edges, before.type_edges, graph.type_edges);
            union_over_next(edges@, f, i as int);
            union_over_next(edges@, g, i as int);
            assert(edges_in(graph.edges) =~= runtime.union(union_over(edges@.take(i + 1), f)));
            assert(edges_in(graph.type_edges) =~= types.union(union_over(edges@.take(i + 1), g)));
        }
        i += 1;
    }
    proof {
        union_over_all(edges@, f, n as int);
        union_over_all(edges@, g, n as int);
    }
}

fn excluded_by(root: &FilePath, x: &DiagnosticExclusion, d: &Diagnostic) -> (r: bool)
    ensures
        r == is_excluded_by(root@, *x, d.model()),
{
    if !same(d.code, x.code.as_str()) {
        return false;
    }
    match &x.path {
        None => true,
        Some(pattern) => match &d.path {
            Some(path) => matches_glob(
                pattern.as_str(),
                relative(path, root).display().as_str(),
            ),
            None => false,
        },
    }
}

fn is_kept(root: &FilePath, exclusions: &Vec<DiagnosticExclusion>, d: &Diagnostic) -> (r: bool)
    ensures
        r == (forall|i: int|
            0 <= i < exclusions@.len() ==> !is_excluded_by(
                root@,
                #[trigger] exclusions@[i],
                d.model(),
            )),
{
    let mut i: usize = 0;
    while i < exclusions.len()
        invariant
            i <= exclusions.len(),
            forall|k: int|
                0 <= k < i ==> !is_excluded_by(root@, #[trigger] exclusions@[k], d.model()),
        decreases exclusions.len() - i,
    {
        if excluded_by(root, &exclusions[i], d) {
            return false;
        }
        i += 1;
    }
    true
}

fn drop_excluded(root: &FilePath, exclusions: &Vec<DiagnosticExclusion>, found: &Vec<Diagnostic>) -> (r:
    Vec<Diagnostic>)
    ensures
        findings_in(r@) == without_excluded(root@, exclusions@, findings_in(found@)),
{
    let ghost all = models(found@);
    let ghost keep = |d: Finding|
        forall|i: int|
            0 <= i < exclusions@.len() ==> !is_excluded_by(root@, #[trigger] exclusions@[i], d);
    let mut out: Vec<Diagnostic> = Vec::new();
    let mut i: usize = 0;
    assert(findings_in(out@) =~= all.take(0).to_set().filter(keep));
    while i < found.len()
        invariant
            i <= found.len(),
            all == models(found@),
            keep == (|d: Finding|
                forall|i: int|
                    0 <= i < exclusions@.len() ==> !is_excluded_by(
                        root@,
                        #[trigger] exclusions@[i],
                        d,
                    )),
            findings_in(out@) == all.take(i as int).to_set().filter(keep),
        decreases found.len() - i,
    {
        let kept = is_kept(root, exclusions, &found[i]);
        assert(kept == keep(all[i as int]));
        if kept {
            report(&mut out, found[i].dup());
        }
        proof {
            assert(all.take(i + 1) =~= all.take(i as int).push(all[i as int]));
            push_to_set(all.take(i as int), all[i as int]);
            assert(findings_in(out@) =~= all.take(i + 1).to_set().filter(keep));
        }
        i += 1;
    }
    assert(all.take(i as int) =~= all);
    out
}

fn find_first_fault(exclusions: &Vec<DiagnosticExclusion>) -> (r: Option<String>)
    ensures
        r.model() == first_fault(exclusions@, 0),
{
    let mut i: usize = 0;
    while i < exclusions.len()
        invariant
            i <= exclusions.len(),
            first_fault(exclusions@, 0) == first_fault(exclusions@, i as int),
        decreases exclusions.len() - i,
    {
        let fault = match &exclusions[i].path {
            Some(pattern) => find_glob_fault(pattern.as_str()),
            None => None,
        };
        if fault.is_some() {
            return fault;
        }
        i += 1;
    }
    None
}

pub(crate) fn report_all(found: &mut Vec<Diagnostic>, more: &Vec<Diagnostic>)
    ensures
        findings_in(final(found)@) == findings_in(old(found)@).union(findings_in(more@)),
{
    let ghost start = findings_in(found@);
    let ghost all = models(more@);
    let mut i: usize = 0;
    assert(findings_in(found@) =~= start.union(all.take(0).to_set()));
    while i < more.len()
        invariant
            i <= more.len(),
            all == models(more@),
            findings_in(found@) == start.union(all.take(i as int).to_set()),
        decreases more.len() - i,
    {
        report(found, more[i].dup());
        proof {
            assert(all.take(i + 1) =~= all.take(i as int).push(all[i as int]));
            push_to_set(all.take(i as int), all[i as int]);
            assert(findings_in(found@) =~= start.union(all.take(i + 1).to_set()));
        }
        i += 1;
    }
    assert(all.take(i as int) =~= all);
}

/// Takes what plugins say into a graph. An exclusion whose pattern is none is an error.
pub fn extend_graph(
    graph: DependencyGraph,
    root: &FilePath,
    packages: &Vec<Package>,
    output: &PluginOutput,
) -> (r: Result<DependencyGraph, String>)
    ensures
        match r {
            Ok(after) => first_fault(output.exclusions@, 0) is None && is_extended(
                graph,
                root@,
                packages@,
                *output,
                after,
            ),
            Err(fault) => first_fault(output.exclusions@, 0) == Some(fault@),
        },
{
    let mut after = graph;
    add_plugin_targets(&mut after, root, &output.targets);
    let ghost middle = after.edges;
    add_plugin_edges(&mut after, root, &output.edges);
    proof {
        adding_keys_twice(graph.edges, middle, after.edges);
    }
    after.refresh_graph_diagnostics(packages);
    match find_first_fault(&output.exclusions) {
        Some(fault) => {
            return Err(fault);
        },
        None => {},
    }
    report_all(&mut after.diagnostics, &output.diagnostics);
    let kept = drop_excluded(root, &output.exclusions, &after.diagnostics);
    after.diagnostics = sorted_findings(&kept);
    Ok(after)
}

} // verus!
