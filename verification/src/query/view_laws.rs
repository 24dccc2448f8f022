//! What holds of the pages that are drawn of what changes affect.
use vstd::prelude::*;

use crate::collections::{ascending_list, ascending_list_fits};
use crate::graph::edge_laws::{over_has, over_holds};
use crate::graph::explain::reason_for;
use crate::graph::links::{edges_in, EdgeMap};
use crate::graph::node::{Node, NodeModel};
use crate::parser::ImportedName;
use crate::query::laws::{
    all_uses_keep_pages_sound, is_sound_page, sources_keep_pages_sound, targets_keep_pages_sound,
};
use crate::query::report::{local_name, node_label, reason_place};
use crate::query::view::{
    added_name, names_bound, names_taken, names_used, on_paths, Page, Use,
};
use crate::query::{Analysis, Path, Text};
use crate::viz::{LinkView, NodeKind, NodeView};
use crate::words::first_place_fits;

verus! {

/// A node is shown: it is a target that changes reach or concern as a whole, or lies on an impact
/// path to one.
pub open spec fn is_drawn(a: Analysis, n: NodeModel) -> bool {
    exists|i: int|
        {
            &&& 0 <= i < a.graph.targets@.len()
            &&& a.reachability.reached@.contains((#[trigger] a.graph.targets@[i]).node@)
                || a.seeds.direct_packages@.dom().contains(a.graph.targets@[i].package@)
            &&& n == a.graph.targets@[i].node@ || lies_on(a.paths_to_target(i), n)
        }
}

pub open spec fn lies_on(paths: Seq<Seq<NodeModel>>, n: NodeModel) -> bool {
    exists|k: int| 0 <= k < paths.len() && (#[trigger] paths[k]).contains(n)
}

proof fn paths_hold_finitely_many(paths: Seq<Seq<NodeModel>>, k: int)
    requires
        0 <= k <= paths.len(),
    ensures
        on_paths(paths.take(k)).finite(),
        forall|n: NodeModel| #[trigger] on_paths(paths.take(k)).contains(n) == lies_on(paths.take(k), n),
    decreases k,
{
    let part = paths.take(k);
    assert forall|n: NodeModel| #[trigger] on_paths(part).contains(n) == lies_on(part, n) by {
        if on_paths(part).contains(n) {
            let (i, j) = choose|i: int, j: int|
                0 <= i < part.len() && 0 <= j < part[i].len() && #[trigger] part[i][j] == n;
            assert(part[i].contains(n));
        }
        if lies_on(part, n) {
            let i = choose|i: int| 0 <= i < part.len() && (#[trigger] part[i]).contains(n);
            let j = choose|j: int| 0 <= j < part[i].len() && part[i][j] == n;
            assert(part[i][j] == n);
        }
    }
    if k > 0 {
        paths_hold_finitely_many(paths, k - 1);
        let front = paths.take(k - 1);
        vstd::seq_lib::seq_to_set_is_finite(paths[k - 1]);
        assert(on_paths(part) =~= on_paths(front).union(paths[k - 1].to_set())) by {
            assert forall|n: NodeModel| on_paths(part).contains(n) == on_paths(front).union(
                paths[k - 1].to_set(),
            ).contains(n) by {
                if lies_on(part, n) {
                    let i = choose|i: int| 0 <= i < part.len() && (#[trigger] part[i]).contains(n);
                    if i < k - 1 {
                        assert(front[i].contains(n));
                    }
                }
                if lies_on(front, n) {
                    let i = choose|i: int| 0 <= i < front.len() && (#[trigger] front[i]).contains(n);
                    assert(part[i].contains(n));
                }
                if paths[k - 1].contains(n) {
                    assert(part[k - 1].contains(n));
                }
            }
        }
    } else {
        assert(on_paths(part) =~= Set::empty());
    }
}

proof fn paths_to_targets_are_finite(a: Analysis, i: int)
    ensures
        a.led_to(i).finite(),
        forall|n: NodeModel| #[trigger] on_paths(a.paths_to_target(i)).contains(n) == lies_on(
            a.paths_to_target(i),
            n,
        ),
{
    let paths = a.paths_to_target(i);
    paths_hold_finitely_many(paths, paths.len() as int);
    assert(paths.take(paths.len() as int) =~= paths);
}

/// What the first `n` targets show.
spec fn shown_by(a: Analysis, n: int) -> Set<NodeModel> {
    Set::new(|x: NodeModel| exists|i: int| 0 <= i < n && (#[trigger] a.led_to(i)).contains(x))
}

proof fn shown_is_finite(a: Analysis, n: int)
    requires
        0 <= n,
    ensures
        shown_by(a, n).finite(),
    decreases n,
{
    if n > 0 {
        shown_is_finite(a, n - 1);
        paths_to_targets_are_finite(a, n - 1);
        assert(shown_by(a, n) =~= shown_by(a, n - 1).union(a.led_to(n - 1))) by {
            assert forall|x: NodeModel| shown_by(a, n).contains(x) == shown_by(a, n - 1).union(
                a.led_to(n - 1),
            ).contains(x) by {
                if a.led_to(n - 1).contains(x) {
                    assert(0 <= n - 1 < n);
                }
                if shown_by(a, n - 1).contains(x) {
                    let i = choose|i: int| 0 <= i < n - 1 && (#[trigger] a.led_to(i)).contains(x);
                    assert(0 <= i < n && a.led_to(i).contains(x));
                }
            }
        }
    } else {
        assert(shown_by(a, n) =~= Set::empty());
    }
}

/// The nodes of a page in their order are exactly the shown ones, each once.
pub proof fn pages_show_what_leads_to_targets(a: Analysis, n: NodeModel)
    ensures
        a.order().contains(n) <==> is_drawn(a, n),
        a.order().no_duplicates(),
{
    let count = a.graph.targets@.len() as int;
    shown_is_finite(a, count);
    assert(a.shown_nodes() =~= shown_by(a, count));
    ascending_list_fits::<Node>(a.shown_nodes());
    assert(a.order().to_set() == a.shown_nodes());
    assert(a.order().contains(n) == a.order().to_set().contains(n));
    if a.shown_nodes().contains(n) {
        let i = choose|i: int| 0 <= i < count && (#[trigger] a.led_to(i)).contains(n);
        paths_to_targets_are_finite(a, i);
        assert(a.is_hit(i));
        assert(a.graph.targets@[i].node@ == a.graph.targets@[i].node@);
    }
    if is_drawn(a, n) {
        let i = choose|i: int|
            {
                &&& 0 <= i < count
                &&& a.reachability.reached@.contains((#[trigger] a.graph.targets@[i]).node@)
                    || a.seeds.direct_packages@.dom().contains(a.graph.targets@[i].package@)
                &&& n == a.graph.targets@[i].node@ || lies_on(a.paths_to_target(i), n)
            };
        paths_to_targets_are_finite(a, i);
        assert(a.is_hit(i));
        assert(a.led_to(i).contains(n));
    }
}

/// Two views tell of the same node, but for what is said of it.
spec fn is_same_node(x: NodeView, y: NodeView) -> bool {
    &&& x.label == y.label
    &&& x.file == y.file
    &&& x.symbol == y.symbol
    &&& x.package == y.package
    &&& x.kind == y.kind
}

spec fn keeps_nodes(p: Page, q: Page) -> bool {
    &&& p.nodes.len() <= q.nodes.len()
    &&& forall|i: int| 0 <= i < p.nodes.len() ==> is_same_node(p.nodes[i], #[trigger] q.nodes[i])
    &&& p.links.is_prefix_of(q.links)
    &&& forall|k: (Text, Text)| #[trigger]
        p.exports.dom().contains(k) ==> q.exports.dom().contains(k) && q.exports[k] == p.exports[k]
}

proof fn keeping_goes_on(p: Page, q: Page, r: Page)
    requires
        keeps_nodes(p, q),
        keeps_nodes(q, r),
    ensures
        keeps_nodes(p, r),
{
    assert forall|i: int| 0 <= i < p.nodes.len() implies is_same_node(p.nodes[i], #[trigger] r.nodes[i]) by {
        assert(is_same_node(p.nodes[i], q.nodes[i]));
    }
    assert(p.links.is_prefix_of(r.links)) by {
        assert(p.links =~= q.links.take(p.links.len() as int));
        assert(q.links =~= r.links.take(q.links.len() as int));
        assert(p.links =~= r.links.take(p.links.len() as int));
    }
}

proof fn uses_keep_nodes(
    p: Page,
    count: int,
    target: int,
    package: Text,
    source: Text,
    uses: Seq<Use>,
    n: int,
)
    requires
        is_sound_page(p, count),
        0 <= target < count,
        0 <= n <= uses.len(),
    ensures
        keeps_nodes(p, p.with_uses(target, package, source, uses, n)),
    decreases n,
{
    if n > 0 {
        uses_keep_nodes(p, count, target, package, source, uses, n - 1);
        all_uses_keep_pages_sound(p, count, target, package, source, uses, n - 1);
        let q = p.with_uses(target, package, source, uses, n - 1);
        let r = p.with_uses(target, package, source, uses, n);
        let id = q.export_id(source, uses[n - 1].0);
        assert(keeps_nodes(q, r)) by {
            assert(q.links =~= r.links.take(q.links.len() as int));
            assert(0 <= id < q.with_export(source, uses[n - 1].0).nodes.len());
        }
        keeping_goes_on(p, q, r);
    } else {
        assert(p.links.take(p.links.len() as int) =~= p.links);
    }
}

proof fn sources_keep_nodes(
    p: Page,
    count: int,
    a: Analysis,
    target: int,
    package: Text,
    dir: Path,
    sources: Seq<Text>,
    n: int,
)
    requires
        is_sound_page(p, count),
        0 <= target < count,
        0 <= n <= sources.len(),
    ensures
        keeps_nodes(p, p.with_sources(a, target, package, dir, sources, n)),
    decreases n,
{
    if n > 0 {
        sources_keep_nodes(p, count, a, target, package, dir, sources, n - 1);
        sources_keep_pages_sound(p, count, a, target, package, dir, sources, n - 1);
        let q = p.with_sources(a, target, package, dir, sources, n - 1);
        let uses = a.uses_of(dir, sources[n - 1]);
        uses_keep_nodes(q, count, target, package, sources[n - 1], uses, uses.len() as int);
        keeping_goes_on(p, q, p.with_sources(a, target, package, dir, sources, n));
    } else {
        assert(p.links.take(p.links.len() as int) =~= p.links);
    }
}

proof fn targets_keep_nodes(p: Page, a: Analysis, n: int)
    requires
        is_sound_page(p, a.order().len() as int),
        0 <= n <= a.graph.targets@.len(),
    ensures
        keeps_nodes(p, p.with_targets(a, n)),
    decreases n,
{
    assert(p.links.take(p.links.len() as int) =~= p.links);
    if n > 0 {
        targets_keep_nodes(p, a, n - 1);
        targets_keep_pages_sound(p, a, n - 1);
        let q = p.with_targets(a, n - 1);
        let r = p.with_targets(a, n);
        let node = a.graph.targets@[n - 1].node@;
        let package = a.graph.targets@[n - 1].package@;
        assert(q.links.take(q.links.len() as int) =~= q.links);
        if r != q {
            let k = crate::workspace::roots::package_with_name(a.packages@, package)->0;
            let sources = ascending_list::<String>(a.added_to(package));
            let place = a.order().index_of(node);
            assert(a.order()[place] == node);
            sources_keep_nodes(
                q,
                a.order().len() as int,
                a,
                place,
                package,
                a.packages@[k].dir@,
                sources,
                sources.len() as int,
            );
        }
        keeping_goes_on(p, q, r);
    }
}

/// The nodes of a page are told by their file, symbol and package, and are marked as a target, as
/// changed, as affected or as none of these.
pub proof fn nodes_are_marked(a: Analysis, root: Path, i: int)
    requires
        0 <= i < a.order().len(),
    ensures
        ({
            let n = a.order()[i];
            let node = a.page(root).nodes[i];
            let is_target = n.0 == seq!["<target>"@];
            &&& i < a.page(root).nodes.len()
            &&& node.label == node_label(root, n)
            &&& node.file == local_name(root, n.0)
            &&& node.symbol == n.1
            &&& is_target ==> node.kind == NodeKind::Target && node.package == n.1
            &&& !is_target && a.changed_nodes().contains(n) ==> node.kind == NodeKind::Seed
            &&& !is_target && !a.changed_nodes().contains(n) && a.reachability.reached@.contains(n)
                ==> node.kind == NodeKind::Affected
            &&& !is_target && !a.changed_nodes().contains(n) && !a.reachability.reached@.contains(n)
                ==> node.kind == NodeKind::Normal
        }),
{
    let start = Page {
        nodes: a.plain_nodes(root),
        exports: Map::empty(),
        links: Seq::empty(),
    };
    let count = a.graph.targets@.len() as int;
    targets_keep_nodes(start, a, count);
    assert(is_same_node(start.nodes[i], start.with_targets(a, count).nodes[i]));
}

proof fn links_from_hold(
    a: Analysis,
    root: Path,
    c: NodeModel,
    list: Seq<NodeModel>,
    type_only: bool,
    n: int,
    d: NodeModel,
)
    requires
        0 <= n <= list.len(),
        list.take(n).contains(d),
        a.order().contains(d),
    ensures
        a.links_from(root, c, list, type_only, n).contains(a.edge_link(root, c, d, type_only)),
    decreases n,
{
    let front = list.take(n);
    let k = choose|k: int| 0 <= k < front.len() && front[k] == d;
    let link = a.edge_link(root, c, d, type_only);
    let all = a.links_from(root, c, list, type_only, n);
    if k == n - 1 {
        assert(all[all.len() - 1] == link);
    } else {
        assert(list.take(n - 1)[k] == d);
        links_from_hold(a, root, c, list, type_only, n - 1, d);
        let before = a.links_from(root, c, list, type_only, n - 1);
        let j = choose|j: int| 0 <= j < before.len() && before[j] == link;
        assert(all[j] == link);
    }
}

proof fn links_among_hold(
    a: Analysis,
    root: Path,
    edges: EdgeMap,
    type_only: bool,
    n: int,
    c: NodeModel,
    d: NodeModel,
)
    requires
        0 <= n <= edges.keys().len(),
        edges.keys().take(n).contains(c),
        a.order().contains(c),
        a.order().contains(d),
        edges@[c]@.contains(d),
    ensures
        a.links_among(root, edges, type_only, n).contains(a.edge_link(root, c, d, type_only)),
    decreases n,
{
    let front = edges.keys().take(n);
    let k = choose|k: int| 0 <= k < front.len() && front[k] == c;
    let link = a.edge_link(root, c, d, type_only);
    let all = a.links_among(root, edges, type_only, n);
    let before = a.links_among(root, edges, type_only, n - 1);
    if k == n - 1 {
        let list = edges@[c].list();
        assert(list.take(list.len() as int) =~= list);
        links_from_hold(a, root, c, list, type_only, list.len() as int, d);
        let more = a.links_from(root, c, list, type_only, list.len() as int);
        let j = choose|j: int| 0 <= j < more.len() && more[j] == link;
        assert(all[before.len() + j] == link);
    } else {
        assert(edges.keys().take(n - 1)[k] == c);
        links_among_hold(a, root, edges, type_only, n - 1, c, d);
        let j = choose|j: int| 0 <= j < before.len() && before[j] == link;
        assert(all[j] == link);
    }
}

/// An edge between two nodes, at places `i` and `j` of the page, as it is drawn.
pub open spec fn is_drawn_edge(
    a: Analysis,
    root: Path,
    link: LinkView,
    i: int,
    j: int,
    type_only: bool,
) -> bool {
    let reason = reason_for(
        a.graph.world(),
        a.graph.typed_registry_edges@,
        a.order()[i],
        a.order()[j],
        type_only,
    );
    &&& link.source == i
    &&& link.target == j
    &&& link.type_only == type_only
    &&& link.detail == reason.detail
    &&& link.location == reason_place(root, reason)
}

/// Every edge between two shown nodes is drawn, from the consumer to the dependency, with its
/// reason; those of types are marked.
pub proof fn edges_between_shown_nodes_are_drawn(a: Analysis, root: Path, i: int, j: int)
    requires
        0 <= i < a.order().len(),
        0 <= j < a.order().len(),
    ensures
        edges_in(a.graph.edges).contains((a.order()[i], a.order()[j])) ==> exists|k: int|
            0 <= k < a.page(root).links.len() && is_drawn_edge(
                a,
                root,
                #[trigger] a.page(root).links[k],
                i,
                j,
                false,
            ),
        edges_in(a.graph.type_edges).contains((a.order()[i], a.order()[j])) ==> exists|k: int|
            0 <= k < a.page(root).links.len() && is_drawn_edge(
                a,
                root,
                #[trigger] a.page(root).links[k],
                i,
                j,
                true,
            ),
{
    let order = a.order();
    let (c, d) = (order[i], order[j]);
    pages_show_what_leads_to_targets(a, c);
    let start = Page {
        nodes: a.plain_nodes(root),
        exports: Map::empty(),
        links: Seq::empty(),
    };
    let used = start.with_targets(a, a.graph.targets@.len() as int);
    let edges = a.graph.edges;
    let typed = a.graph.type_edges;
    let first = a.links_among(root, edges, false, edges.keys().len() as int);
    let second = a.links_among(root, typed, true, typed.keys().len() as int);
    let all = a.page(root).links;
    assert(all == used.links + first + second);
    assert(order.index_of(c) == i && order.index_of(d) == j);
    if edges_in(edges).contains((c, d)) {
        edges.dom_is_finite();
        assert(edges.keys().to_set().contains(c));
        assert(edges.keys().take(edges.keys().len() as int) =~= edges.keys());
        links_among_hold(a, root, edges, false, edges.keys().len() as int, c, d);
        let link = a.edge_link(root, c, d, false);
        let k = choose|k: int| 0 <= k < first.len() && first[k] == link;
        assert(all[used.links.len() + k] == link);
        assert(is_drawn_edge(a, root, all[used.links.len() + k], i, j, false));
    }
    if edges_in(typed).contains((c, d)) {
        typed.dom_is_finite();
        assert(typed.keys().to_set().contains(c));
        assert(typed.keys().take(typed.keys().len() as int) =~= typed.keys());
        links_among_hold(a, root, typed, true, typed.keys().len() as int, c, d);
        let link = a.edge_link(root, c, d, true);
        let k = choose|k: int| 0 <= k < second.len() && second[k] == link;
        assert(all[used.links.len() + first.len() + k] == link);
        assert(is_drawn_edge(a, root, all[used.links.len() + first.len() + k], i, j, true));
    }
}

/// A module below the directory takes `name` from `source` by the import `local`: by its name, as
/// a member, or as a star where the namespace is used as a whole.
pub open spec fn uses_name(
    a: Analysis,
    dir: Path,
    source: Text,
    type_only: bool,
    name: Text,
    path: Path,
    local: Text,
) -> bool {
    let m = a.graph.modules@[path];
    let imports = if type_only {
        m.type_imports@
    } else {
        m.imports@
    };
    &&& a.graph.modules@.dom().contains(path)
    &&& dir.is_prefix_of(path)
    &&& imports.dom().contains(local)
    &&& imports[local].source@ == source
    &&& match imports[local].imported {
        ImportedName::Named(n) => n@ == name,
        ImportedName::Namespace { members: Some(members) } => members@.contains(name),
        ImportedName::Namespace { members: None } => name == "*"@,
    }
}

/// The names that the modules of a package take from a dependency.
pub proof fn packages_use_what_they_import(
    a: Analysis,
    dir: Path,
    source: Text,
    type_only: bool,
    name: Text,
)
    ensures
        names_used(a.graph.modules, dir, source, type_only).contains(name) <==> exists|
            path: Path,
            local: Text,
        | #[trigger] uses_name(a, dir, source, type_only, name, path, local),
{
    let modules = a.graph.modules;
    let keys = modules.keys();
    modules.dom_is_finite();
    let f = names_taken(modules@, dir, source, type_only);
    if names_used(modules, dir, source, type_only).contains(name) {
        let path = over_has(keys, f, name);
        assert(keys.to_set().contains(path));
        let bindings = crate::query::view::bindings_of(modules@[path], type_only);
        bindings.dom_is_finite();
        let local = over_has(bindings.keys(), names_bound(bindings, source), name);
        assert(bindings.keys().to_set().contains(local));
        assert(uses_name(a, dir, source, type_only, name, path, local));
    }
    if exists|path: Path, local: Text| #[trigger]
        uses_name(a, dir, source, type_only, name, path, local) {
        let (path, local) = choose|path: Path, local: Text| #[trigger]
            uses_name(a, dir, source, type_only, name, path, local);
        let bindings = crate::query::view::bindings_of(modules@[path], type_only);
        bindings.dom_is_finite();
        assert(bindings.keys().to_set().contains(local));
        assert((names_bound(bindings, source))(local).contains(name));
        over_holds(bindings.keys(), names_bound(bindings, source), local, name);
        assert(keys.to_set().contains(path));
        assert(f(path).contains(name));
        over_holds(keys, f, path, name);
    }
}

/// The dependency that an added entry of a manifest names.
pub proof fn added_dependencies_are_read(noun: Text, name: Text, rest: Text)
    requires
        !noun.contains('`'),
        !name.contains('`'),
        "dependency "@.is_suffix_of(noun),
    ensures
        added_name("added "@ + noun + seq!['`'] + name + seq!['`'] + rest) == Some(name),
{
    reveal_strlit("added ");
    reveal_strlit("dependency ");
    reveal_strlit("dependency `");
    let head = "added "@ + noun;
    let text = head + seq!['`'] + name + seq!['`'] + rest;
    let n = head.len() as int;
    let m = n + 1 + name.len();
    assert("added "@.is_prefix_of(text)) by {
        assert(text.take("added "@.len() as int) =~= "added "@);
    }
    let part = "dependency `"@;
    let at = n - "dependency "@.len();
    assert(part =~= "dependency "@ + seq!['`']);
    assert(text.subrange(at, at + part.len()) =~= part) by {
        assert(noun =~= noun.take(noun.len() - "dependency "@.len()) + "dependency "@);
    }
    assert(crate::query::command::stands_at(text, part, at));
    assert forall|i: int| 0 <= i < n implies text[i] != '`' by {
        if i >= 6 {
            assert(text[i] == noun[i - 6]);
            assert(noun.contains(noun[i - 6]));
        }
    }
    assert(text[n] == '`' && text[m as int] == '`');
    first_place_fits(text, '`', 0);
    let a = crate::words::first_place(text, '`', 0);
    assert(a == n);
    first_place_fits(text, '`', n + 1);
    let b = crate::words::first_place(text, '`', n + 1);
    assert(b == m) by {
        if b < m {
            assert(text[b] == name[b - n - 1]);
            assert(name.contains(name[b - n - 1]));
        }
    }
    assert(text.subrange(n + 1, m as int) =~= name);
}

} // verus!
