//! What holds of every answer.
use vstd::prelude::*;

use crate::collections::ascending_list;
use crate::graph::links::{edges_in, Finding};
use crate::graph::model::DependencyGraph;
use crate::graph::node::NodeModel;
use crate::graph::reach::{consumed_by, Reachability};
use crate::plugin::failure;
use crate::query::command::{filter_line, filters, NO_PACKAGES};
use crate::query::modules::ModuleLinks;
use crate::query::report::{fails, has_severity, is_shown};
use crate::query::view::{Page, Use};
use crate::query::{is_merged, Analysis, TaskKind, WarningPolicy};
use crate::diagnostics::Severity;
use crate::viz::{LinkView, NodeView};
use crate::walk::{reaches, reaches_monotone, reaches_self, reaches_step};
use crate::workspace::owner::{owner_among, owner_of, Path};
use crate::workspace::Package;

verus! {

pub type Text = Seq<char>;

/// What changed is affected itself.
pub proof fn changes_are_reached(a: Analysis, n: NodeModel)
    requires
        a.is_explored(),
        a.changed_nodes().contains(n),
    ensures
        a.reachability.reached@.contains(n),
{
    reaches_self(a.passes_on(), n);
}

/// What consumes an affected node is affected.
pub proof fn consumers_are_reached(a: Analysis, consumer: NodeModel, dependency: NodeModel)
    requires
        a.is_explored(),
        a.reachability.reached@.contains(dependency),
        edges_in(a.graph.edges).contains((consumer, dependency)),
    ensures
        a.reachability.reached@.contains(consumer),
{
    let r = a.passes_on();
    let s = choose|s: NodeModel|
        a.reachability.seeds@.contains(s) && #[trigger] reaches(r, s, dependency);
    assert(r(dependency, consumer));
    reaches_step(r, s, dependency, consumer);
}

/// A declaration that is gone still affects those that consumed it at the base revision.
pub proof fn removed_declarations_keep_their_consumers(
    a: Analysis,
    graph: DependencyGraph,
    base: DependencyGraph,
    removed: NodeModel,
    consumer: NodeModel,
)
    requires
        a.is_explored(),
        is_merged(graph, Some(base), a.graph),
        a.changed_nodes().contains(removed),
        edges_in(base.edges).contains((consumer, removed)),
    ensures
        a.reachability.reached@.contains(consumer),
{
    changes_are_reached(a, removed);
    assert(edges_in(a.graph.edges).contains((consumer, removed)));
    consumers_are_reached(a, consumer, removed);
}

/// A change of the same nodes reaches at least as much where types count too.
pub proof fn type_checks_reach_more(
    graph: DependencyGraph,
    deployed: Reachability,
    checked: Reachability,
    n: NodeModel,
)
    requires
        deployed.explores(consumed_by(edges_in(graph.edges))),
        checked.explores(consumed_by(edges_in(graph.edges).union(edges_in(graph.type_edges)))),
        deployed.seeds@.subset_of(checked.seeds@),
        deployed.reached@.contains(n),
    ensures
        checked.reached@.contains(n),
{
    let r = consumed_by(edges_in(graph.edges));
    let q = consumed_by(edges_in(graph.edges).union(edges_in(graph.type_edges)));
    let s = choose|s: NodeModel| deployed.seeds@.contains(s) && #[trigger] reaches(r, s, n);
    assert(forall|x: NodeModel, y: NodeModel| #[trigger] r(x, y) ==> q(x, y));
    reaches_monotone(r, q, s, n);
}

/// More changes in a larger graph reach at least as much.
pub proof fn larger_changes_reach_more(
    small: Reachability,
    large: Reachability,
    r: spec_fn(NodeModel, NodeModel) -> bool,
    q: spec_fn(NodeModel, NodeModel) -> bool,
    n: NodeModel,
)
    requires
        small.explores(r),
        large.explores(q),
        forall|x: NodeModel, y: NodeModel| #[trigger] r(x, y) ==> q(x, y),
        small.seeds@.subset_of(large.seeds@),
        small.reached@.contains(n),
    ensures
        large.reached@.contains(n),
{
    let s = choose|s: NodeModel| small.seeds@.contains(s) && #[trigger] reaches(r, s, n);
    reaches_monotone(r, q, s, n);
}

/// A package that a change concerns as a whole, and that is a target, is affected.
pub proof fn direct_targets_are_affected(a: Analysis, i: int)
    requires
        0 <= i < a.graph.targets@.len(),
        a.seeds.direct_packages@.dom().contains(a.graph.targets@[i].package@),
    ensures
        a.affected().contains(a.graph.targets@[i].package@),
{
    assert(a.graph.targets@[i].package@ == a.graph.targets@[i].package@ && a.is_hit(i));
}

/// A package is affected by a deployment query exactly where crates reach it, where it is a target
/// that a change concerns as a whole, or where a changed declaration reaches its target along
/// consumers.
pub proof fn targets_are_affected_by_what_reaches_them(a: Analysis, name: Text)
    requires
        a.is_explored(),
        a.task == TaskKind::Deploy,
    ensures
        a.affected().contains(name) == (a.crate_packages@.contains(name) || exists|i: int|
            0 <= i < a.graph.targets@.len() && (#[trigger] a.graph.targets@[i]).package@ == name && (
            a.seeds.direct_packages@.dom().contains(name) || is_reached_from(
                a,
                a.graph.targets@[i].node@,
            ))),
{
    assert forall|i: int| 0 <= i < a.graph.targets@.len() implies a.reachability.reached@.contains(
        (#[trigger] a.graph.targets@[i]).node@,
    ) == is_reached_from(a, a.graph.targets@[i].node@) by {}
    if a.is_hit_target(name) {
        let i = choose|i: int|
            0 <= i < a.graph.targets@.len() && (#[trigger] a.graph.targets@[i]).package@ == name
                && a.is_hit(i);
        assert(a.graph.targets@[i].package@ == name);
    }
}

/// A changed declaration reaches a node along consumers at run time.
pub open spec fn is_reached_from(a: Analysis, n: NodeModel) -> bool {
    exists|s: NodeModel|
        a.seeds.nodes@.contains(s) && #[trigger] reaches(
            consumed_by(edges_in(a.graph.edges)),
            s,
            n,
        )
}

/// Package `i` is the deepest one above a path, and of several the last.
pub open spec fn is_deepest_above(packages: Seq<Package>, path: Path, i: int) -> bool {
    &&& 0 <= i < packages.len()
    &&& packages[i].dir@.is_prefix_of(path)
    &&& forall|j: int|
        0 <= j < packages.len() && (#[trigger] packages[j]).dir@.is_prefix_of(path) && j != i
            ==> packages[j].dir@.len() < packages[i].dir@.len() || (packages[j].dir@.len()
            == packages[i].dir@.len() && j < i)
}

/// The package that a path belongs to is the deepest one above it.
pub proof fn the_deepest_package_owns(packages: Seq<Package>, path: Path, i: int)
    ensures
        (owner_of(packages, path) == Some(i)) == is_deepest_above(packages, path, i),
{
    owners_are_deepest(packages, path, packages.len() as int);
    assert(packages.take(packages.len() as int) =~= packages);
    if is_deepest_above(packages, path, i) {
        match owner_of(packages, path) {
            Some(k) => {
                assert(is_deepest_above(packages, path, k));
                if k != i {
                    assert(packages[k].dir@.is_prefix_of(path));
                    assert(packages[i].dir@.is_prefix_of(path));
                }
            },
            None => {
                assert(packages[i].dir@.is_prefix_of(path));
            },
        }
    }
}

proof fn owners_are_deepest(packages: Seq<Package>, path: Path, n: int)
    requires
        0 <= n <= packages.len(),
    ensures
        match owner_among(packages, path, n) {
            Some(i) => is_deepest_above(packages.take(n), path, i),
            None => forall|j: int|
                0 <= j < n ==> !(#[trigger] packages[j]).dir@.is_prefix_of(path),
        },
    decreases n,
{
    if n > 0 {
        owners_are_deepest(packages, path, n - 1);
        let all = packages.take(n);
        let front = packages.take(n - 1);
        assert forall|j: int| 0 <= j < n - 1 implies front[j] == #[trigger] all[j] by {}
        assert(all[n - 1] == packages[n - 1]);
        if let Some(i) = owner_among(packages, path, n - 1) {
            assert(front[i] == all[i]);
        }
        if let Some(i) = owner_among(packages, path, n) {
            assert forall|j: int|
                0 <= j < all.len() && (#[trigger] all[j]).dir@.is_prefix_of(path) && j != i
                implies all[j].dir@.len() < all[i].dir@.len() || (all[j].dir@.len()
                == all[i].dir@.len() && j < i) by {
                assert(all[j] == packages[j]);
                if j < n - 1 {
                    assert(front[j] == all[j]);
                }
            }
        }
    }
}

/// A node belongs to the package that is the deepest one above its file.
proof fn owners_own(a: Analysis, name: Text, n: NodeModel)
    ensures
        a.owns(name, n) == (exists|i: int| #[trigger]
            is_deepest_above(a.packages@, n.0, i) && a.packages@[i].name@ == name),
{
    let all = a.packages@;
    if exists|i: int| #[trigger] is_deepest_above(all, n.0, i) && all[i].name@ == name {
        let i = choose|i: int| #[trigger] is_deepest_above(all, n.0, i) && all[i].name@ == name;
        the_deepest_package_owns(all, n.0, i);
    }
    if let Some(k) = owner_of(all, n.0) {
        the_deepest_package_owns(all, n.0, k);
    }
}

/// A package is affected by a type check exactly where crates reach it, where a change concerns
/// it as a whole, or where it is the deepest one above the file of a node that a changed
/// declaration reaches along consumers, at run time or for types. It need not be a target, and
/// the node need not have changed itself.
pub proof fn type_checks_affect_whatever_is_reached(a: Analysis, name: Text)
    requires
        a.is_explored(),
        a.task == TaskKind::Typecheck,
    ensures
        a.affected().contains(name) == (a.crate_packages@.contains(name)
            || a.seeds.direct_packages@.dom().contains(name) || exists|s: NodeModel, n: NodeModel, i: int|
            a.seeds.type_nodes@.contains(s) && #[trigger] reaches(
                consumed_by(edges_in(a.graph.edges).union(edges_in(a.graph.type_edges))),
                s,
                n,
            ) && #[trigger] is_deepest_above(a.packages@, n.0, i) && a.packages@[i].name@ == name),
{
    let r = consumed_by(edges_in(a.graph.edges).union(edges_in(a.graph.type_edges)));
    assert(a.passes_on() == r);
    assert(a.changed_nodes() == a.seeds.type_nodes@);
    if a.is_reached_package(name) {
        let n = choose|n: NodeModel| #[trigger]
            a.reachability.reached@.contains(n) && a.owns(name, n);
        owners_own(a, name, n);
        let s = choose|s: NodeModel| a.reachability.seeds@.contains(s) && #[trigger] reaches(r, s, n);
        let i = choose|i: int| #[trigger]
            is_deepest_above(a.packages@, n.0, i) && a.packages@[i].name@ == name;
        assert(a.seeds.type_nodes@.contains(s) && reaches(r, s, n) && is_deepest_above(
            a.packages@,
            n.0,
            i,
        ));
    }
    if exists|s: NodeModel, n: NodeModel, i: int|
        a.seeds.type_nodes@.contains(s) && #[trigger] reaches(r, s, n)
            && #[trigger] is_deepest_above(a.packages@, n.0, i) && a.packages@[i].name@ == name {
        let (s, n, i) = choose|s: NodeModel, n: NodeModel, i: int|
            a.seeds.type_nodes@.contains(s) && #[trigger] reaches(r, s, n)
                && #[trigger] is_deepest_above(a.packages@, n.0, i) && a.packages@[i].name@ == name;
        owners_own(a, name, n);
        assert(a.reachability.seeds@.contains(s) && reaches(r, s, n));
        assert(a.reachability.reached@.contains(n));
        assert(a.owns(name, n));
    }
}

/// Where nothing is affected, the filter that is printed is none of a package.
pub proof fn empty_answers_select_nothing(name: Text)
    requires
        name != "__monoripple_no_affected_packages__"@,
    ensures
        filter_line(Seq::empty()) == NO_PACKAGES@,
        filters(seq![name])[0] != NO_PACKAGES@,
{
    let filter = filters(seq![name])[0];
    reveal_strlit("--filter=");
    reveal_strlit("--filter=__monoripple_no_affected_packages__");
    reveal_strlit("__monoripple_no_affected_packages__");
    assert("--filter="@.len() == 9);
    assert(filter == "--filter="@ + name);
    if filter == NO_PACKAGES@ {
        assert(filter.skip(9) =~= name);
        assert(NO_PACKAGES@.skip(9) =~= "__monoripple_no_affected_packages__"@);
    }
}

/// A plugin that failed fails the query, whatever the policy on warnings.
pub proof fn plugin_failures_fail_queries(
    list: Seq<Finding>,
    i: int,
    root: Path,
    name: Text,
    output: Text,
    warnings: WarningPolicy,
)
    requires
        0 <= i < list.len(),
        list[i] == failure(root, name, output),
    ensures
        fails(list, warnings),
        is_shown(list[i], warnings, false),
{
    assert(list[i].1.0 == Severity::Error);
    assert(has_severity(list, Severity::Error));
}

/// Hidden warnings are not shown, and fail nothing.
pub proof fn hidden_warnings_do_no_harm(list: Seq<Finding>, i: int)
    requires
        0 <= i < list.len(),
        list[i].1.0 == Severity::Warning,
    ensures
        !is_shown(list[i], WarningPolicy::Off, true),
        fails(list, WarningPolicy::Off) == has_severity(list, Severity::Error),
        fails(list, WarningPolicy::Error),
{
    assert(has_severity(list, Severity::Warning));
}

/// A page whose nodes are numbered by their places, and whose links lead from node to node.
pub open spec fn is_drawable(nodes: Seq<NodeView>, links: Seq<LinkView>) -> bool {
    &&& forall|i: int| 0 <= i < nodes.len() ==> (#[trigger] nodes[i]).id == i
    &&& forall|i: int|
        0 <= i < links.len() ==> 0 <= (#[trigger] links[i]).source < nodes.len() && 0
            <= links[i].target < nodes.len()
}

/// A drawable page with at least `n` nodes whose exports have nodes.
pub open spec fn is_sound_page(p: Page, n: int) -> bool {
    &&& is_drawable(p.nodes, p.links)
    &&& n <= p.nodes.len()
    &&& forall|k: (Text, Text)| #[trigger]
        p.exports.dom().contains(k) ==> 0 <= p.exports[k] < p.nodes.len()
}

proof fn uses_keep_pages_sound(p: Page, n: int, target: int, package: Text, source: Text, u: Use)
    requires
        is_sound_page(p, n),
        0 <= target < n,
    ensures
        is_sound_page(p.with_use(target, package, source, u), n),
{
    let id = p.export_id(source, u.0);
    let page = p.with_export(source, u.0);
    let after = p.with_use(target, package, source, u);
    assert(is_sound_page(page, n)) by {
        if !p.exports.dom().contains((source, u.0)) {
            assert forall|i: int| 0 <= i < page.nodes.len() implies (#[trigger] page.nodes[i]).id == i by {
                if i < p.nodes.len() {
                    assert(p.nodes[i].id == i);
                }
            }
            assert forall|i: int| 0 <= i < page.links.len() implies 0 <= (
            #[trigger] page.links[i]).source < page.nodes.len() && 0 <= page.links[i].target
                < page.nodes.len() by {
                assert(p.links[i].source < p.nodes.len());
            }
            assert forall|k: (Text, Text)| #[trigger] page.exports.dom().contains(k) implies 0
                <= page.exports[k] < page.nodes.len() by {
                if k != (source, u.0) {
                    assert(p.exports.dom().contains(k));
                }
            }
        }
    }
    assert(0 <= id < page.nodes.len());
    assert forall|i: int| 0 <= i < after.nodes.len() implies (#[trigger] after.nodes[i]).id == i by {
        assert(page.nodes[i].id == i);
    }
    assert forall|i: int| 0 <= i < after.links.len() implies 0 <= (#[trigger] after.links[i]).source
        < after.nodes.len() && 0 <= after.links[i].target < after.nodes.len() by {
        if i < page.links.len() {
            assert(after.links[i] == page.links[i]);
        }
    }
}

pub(crate) proof fn all_uses_keep_pages_sound(
    p: Page,
    n: int,
    target: int,
    package: Text,
    source: Text,
    uses: Seq<Use>,
    k: int,
)
    requires
        is_sound_page(p, n),
        0 <= target < n,
    ensures
        is_sound_page(p.with_uses(target, package, source, uses, k), n),
    decreases k,
{
    if k > 0 {
        all_uses_keep_pages_sound(p, n, target, package, source, uses, k - 1);
        uses_keep_pages_sound(
            p.with_uses(target, package, source, uses, k - 1),
            n,
            target,
            package,
            source,
            uses[k - 1],
        );
    }
}

pub(crate) proof fn sources_keep_pages_sound(
    p: Page,
    n: int,
    a: Analysis,
    target: int,
    package: Text,
    dir: Path,
    sources: Seq<Text>,
    k: int,
)
    requires
        is_sound_page(p, n),
        0 <= target < n,
    ensures
        is_sound_page(p.with_sources(a, target, package, dir, sources, k), n),
    decreases k,
{
    if k > 0 {
        sources_keep_pages_sound(p, n, a, target, package, dir, sources, k - 1);
        let uses = a.uses_of(dir, sources[k - 1]);
        all_uses_keep_pages_sound(
            p.with_sources(a, target, package, dir, sources, k - 1),
            n,
            target,
            package,
            sources[k - 1],
            uses,
            uses.len() as int,
        );
    }
}

pub(crate) proof fn targets_keep_pages_sound(p: Page, a: Analysis, k: int)
    requires
        is_sound_page(p, a.order().len() as int),
    ensures
        is_sound_page(p.with_targets(a, k), a.order().len() as int),
    decreases k,
{
    let n = a.order().len() as int;
    if k > 0 {
        targets_keep_pages_sound(p, a, k - 1);
        let before = p.with_targets(a, k - 1);
        let target = a.graph.targets@[k - 1];
        let package = target.package@;
        if a.order().contains(target.node@) {
            let id = a.order().index_of(target.node@);
            let sources = ascending_list::<String>(a.added_to(package));
            match crate::workspace::roots::package_with_name(a.packages@, package) {
                Some(j) => {
                    sources_keep_pages_sound(
                        before,
                        n,
                        a,
                        id,
                        package,
                        a.packages@[j].dir@,
                        sources,
                        sources.len() as int,
                    );
                },
                None => {},
            }
        }
    }
}

spec fn are_linked(links: Seq<LinkView>, n: int) -> bool {
    forall|i: int|
        0 <= i < links.len() ==> 0 <= (#[trigger] links[i]).source < n && 0 <= links[i].target < n
}

proof fn links_from_stay_in_range(
    a: Analysis,
    root: Path,
    consumer: NodeModel,
    list: Seq<NodeModel>,
    type_only: bool,
    k: int,
)
    requires
        a.order().contains(consumer),
    ensures
        are_linked(a.links_from(root, consumer, list, type_only, k), a.order().len() as int),
    decreases k,
{
    if k > 0 {
        links_from_stay_in_range(a, root, consumer, list, type_only, k - 1);
        let i = a.order().index_of(consumer);
        assert(a.order()[i] == consumer);
    }
}

proof fn links_stay_in_range(
    a: Analysis,
    root: Path,
    edges: crate::graph::links::EdgeMap,
    type_only: bool,
    k: int,
)
    ensures
        are_linked(a.links_among(root, edges, type_only, k), a.order().len() as int),
    decreases k,
{
    if k > 0 {
        links_stay_in_range(a, root, edges, type_only, k - 1);
        let consumer = edges.keys()[k - 1];
        if a.order().contains(consumer) {
            let list = edges@[consumer].list();
            links_from_stay_in_range(a, root, consumer, list, type_only, list.len() as int);
        }
    }
}

/// The nodes of a page are numbered by their places, and every link leads from one of them to
/// another.
pub proof fn pages_are_drawable(a: Analysis, root: Path)
    ensures
        is_drawable(a.page(root).nodes, a.page(root).links),
{
    let n = a.order().len() as int;
    let start = Page {
        nodes: a.plain_nodes(root),
        exports: Map::empty(),
        links: Seq::empty(),
    };
    assert(is_sound_page(start, n));
    targets_keep_pages_sound(start, a, a.graph.targets@.len() as int);
    let used = start.with_targets(a, a.graph.targets@.len() as int);
    let runtime = a.links_among(root, a.graph.edges, false, a.graph.edges.keys().len() as int);
    let types = a.links_among(
        root,
        a.graph.type_edges,
        true,
        a.graph.type_edges.keys().len() as int,
    );
    links_stay_in_range(a, root, a.graph.edges, false, a.graph.edges.keys().len() as int);
    links_stay_in_range(a, root, a.graph.type_edges, true, a.graph.type_edges.keys().len() as int);
    let page = a.page(root);
    assert forall|i: int| 0 <= i < page.nodes.len() implies (#[trigger] page.nodes[i]).id == i by {
        assert(used.nodes[i].id == i);
    }
    assert forall|i: int| 0 <= i < page.links.len() implies 0 <= (#[trigger] page.links[i]).source
        < page.nodes.len() && 0 <= page.links[i].target < page.nodes.len() by {
        let a1 = used.links.len() as int;
        let a2 = a1 + runtime.len();
        if i < a1 {
            assert(page.links[i] == used.links[i]);
        } else if i < a2 {
            assert(page.links[i] == runtime[i - a1]);
        } else {
            assert(page.links[i] == types[i - a2]);
        }
    }
}

pub open spec fn ends(link: LinkView) -> (int, int) {
    (link.source, link.target)
}

/// No two links lead between the same nodes, and none leads from a node to itself.
pub open spec fn are_simple(links: Seq<LinkView>) -> bool {
    &&& forall|i: int| 0 <= i < links.len() ==> (#[trigger] links[i]).source != links[i].target
    &&& forall|i: int, j: int|
        0 <= i < j < links.len() ==> ends(#[trigger] links[i]) != ends(#[trigger] links[j])
}

spec fn is_sound_list(found: ModuleLinks, n: int) -> bool {
    &&& are_linked(found.links, n)
    &&& are_simple(found.links)
    &&& forall|i: int| 0 <= i < found.links.len() ==> found.seen.contains(ends(#[trigger] found.links[i]))
}

proof fn edges_keep_lists_sound(
    a: Analysis,
    root: Path,
    found: ModuleLinks,
    consumer: NodeModel,
    list: Seq<NodeModel>,
    type_only: bool,
    k: int,
)
    requires
        a.files().contains(consumer.0),
        is_sound_list(found, a.files().len() as int),
    ensures
        is_sound_list(
            a.with_edges(root, found, consumer, list, type_only, k),
            a.files().len() as int,
        ),
    decreases k,
{
    if k > 0 {
        edges_keep_lists_sound(a, root, found, consumer, list, type_only, k - 1);
        let before = a.with_edges(root, found, consumer, list, type_only, k - 1);
        let after = a.with_edge(root, before, consumer, list[k - 1], type_only);
        let source = a.files().index_of(consumer.0);
        assert(a.files()[source] == consumer.0);
        if after != before {
            let last = before.links.len() as int;
            assert forall|i: int| 0 <= i < last implies #[trigger] after.links[i] == before.links[i] by {}
            assert forall|i: int, j: int| 0 <= i < j < after.links.len() implies ends(
                #[trigger] after.links[i],
            ) != ends(#[trigger] after.links[j]) by {
                assert(before.seen.contains(ends(before.links[i])));
                if j < last {
                    assert(ends(before.links[i]) != ends(before.links[j]));
                }
            }
        }
    }
}

proof fn consumers_keep_lists_sound(
    a: Analysis,
    root: Path,
    found: ModuleLinks,
    edges: crate::graph::links::EdgeMap,
    type_only: bool,
    k: int,
)
    requires
        is_sound_list(found, a.files().len() as int),
    ensures
        is_sound_list(
            a.with_consumers(root, found, edges, type_only, k),
            a.files().len() as int,
        ),
    decreases k,
{
    if k > 0 {
        consumers_keep_lists_sound(a, root, found, edges, type_only, k - 1);
        let consumer = edges.keys()[k - 1];
        if a.files().contains(consumer.0) {
            let list = edges@[consumer].list();
            let before = a.with_consumers(root, found, edges, type_only, k - 1);
            edges_keep_lists_sound(a, root, before, consumer, list, type_only, list.len() as int);
        }
    }
}

/// A page of modules can be drawn, and of each kind it links two modules at most once.
pub proof fn module_pages_are_drawable(a: Analysis, root: Path)
    ensures
        is_drawable(a.module_nodes(root), a.module_links(root)),
        are_simple(a.links_of_kind(root, a.graph.edges, false)),
        are_simple(a.links_of_kind(root, a.graph.type_edges, true)),
{
    let none = ModuleLinks { seen: Set::empty(), links: Seq::empty() };
    let n = a.files().len() as int;
    assert(is_sound_list(none, n));
    let runtime = a.graph.edges;
    let types = a.graph.type_edges;
    consumers_keep_lists_sound(a, root, none, runtime, false, runtime.keys().len() as int);
    consumers_keep_lists_sound(a, root, none, types, true, types.keys().len() as int);
    let first = a.links_of_kind(root, runtime, false);
    let second = a.links_of_kind(root, types, true);
    assert(are_linked(first, n) && are_linked(second, n));
    let all = a.module_links(root);
    assert forall|i: int| 0 <= i < all.len() implies 0 <= (#[trigger] all[i]).source < n && 0
        <= all[i].target < n by {
        if i < first.len() {
            assert(all[i] == first[i]);
        } else {
            assert(all[i] == second[i - first.len()]);
        }
    }
}

} // verus!
