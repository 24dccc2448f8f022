//! What holds of the chains from a change to what it affects.
use vstd::prelude::*;

use crate::collections::pairs;
use crate::graph::node::{Node, NodeModel};
use crate::graph::paths::{
    is_impact_path, longer_by, paths_are_impact_paths, paths_of, predecessors_of, reason_paths,
    search_budget, searched, traces_are_walks,
};
use crate::graph::reach::{follows, found_from, is_breadth_first, Reachability};
use crate::walk::{is_walk, reaches, walk_between};

verus! {

/// How many steps lie between the place `p` of a breadth-first order and a seed.
spec fn depth(s: int, origin: Seq<int>, p: int) -> nat
    decreases p,
{
    if p < s || p < 0 || !(0 <= origin[p] < p) {
        0
    } else {
        depth(s, origin, origin[p]) + 1
    }
}

/// The order that an exploration followed.
spec fn is_order(
    reach: Reachability,
    r: spec_fn(NodeModel, NodeModel) -> bool,
    order: Seq<NodeModel>,
    origin: Seq<int>,
) -> bool {
    let s = reach.seeds.list().len() as int;
    &&& reach.seeds.list().is_prefix_of(order)
    &&& order.to_set() == reach.reached@
    &&& is_breadth_first(r, s, order, origin)
    &&& follows(s, order, origin, reach.previous@, reach.seed_for@)
}

proof fn depth_grows(
    r: spec_fn(NodeModel, NodeModel) -> bool,
    s: int,
    order: Seq<NodeModel>,
    origin: Seq<int>,
    p: int,
    q: int,
)
    requires
        is_breadth_first(r, s, order, origin),
        0 <= p <= q < order.len(),
    ensures
        depth(s, origin, p) <= depth(s, origin, q),
    decreases q,
{
    if p >= s {
        assert(found_from(r, order, p, origin[p]));
        assert(found_from(r, order, q, origin[q]));
        if p < q {
            assert(origin[p] < origin[q] || origin[p] == origin[q]);
            depth_grows(r, s, order, origin, origin[p], origin[q]);
        }
    }
}

/// The place of a reached node.
proof fn place_of(
    reach: Reachability,
    r: spec_fn(NodeModel, NodeModel) -> bool,
    order: Seq<NodeModel>,
    origin: Seq<int>,
    n: NodeModel,
) -> (p: int)
    requires
        is_order(reach, r, order, origin),
        reach.reached@.contains(n),
    ensures
        0 <= p < order.len(),
        order[p] == n,
{
    assert(order.to_set().contains(n));
    choose|p: int| 0 <= p < order.len() && order[p] == n
}

/// No walk from a seed is shorter than the depth of its end.
proof fn walks_are_deep(
    reach: Reachability,
    r: spec_fn(NodeModel, NodeModel) -> bool,
    order: Seq<NodeModel>,
    origin: Seq<int>,
    walk: Seq<NodeModel>,
    p: int,
)
    requires
        reach.explores(r),
        is_order(reach, r, order, origin),
        is_walk(r, walk),
        reach.seeds@.contains(walk[0]),
        0 <= p < order.len(),
        order[p] == walk.last(),
    ensures
        depth(reach.seeds.list().len() as int, origin, p) < walk.len(),
    decreases walk.len(),
{
    let s = reach.seeds.list().len() as int;
    if p >= s {
        assert(found_from(r, order, p, origin[p]));
        if walk.len() == 1 {
            let list = reach.seeds.list();
            assert(list.to_set().contains(walk[0]));
            let k = choose|k: int| 0 <= k < list.len() && list[k] == walk[0];
            assert(order.subrange(0, s)[k] == list[k]);
            assert(order[k] == order[p]);
            assert(false);
        }
        let front = walk.drop_last();
        assert forall|k: int|
            #![trigger front[k], front[k + 1]]
            0 <= k && k + 1 < front.len() implies r(front[k], front[k + 1]) by {
            assert(front[k] == walk[k] && front[k + 1] == walk[k + 1]);
        }
        assert(front[0] == walk[0]);
        assert(walk_between(r, front, walk[0], front.last()));
        assert(reaches(r, walk[0], front.last()));
        let k = place_of(reach, r, order, origin, front.last());
        walks_are_deep(reach, r, order, origin, front, k);
        assert(r(walk[walk.len() - 2], walk[walk.len() - 2 + 1]));
        assert(r(order[k], order[p]));
        assert(origin[p] <= k);
        depth_grows(r, s, order, origin, origin[p], k);
    }
}

/// The nodes of a trace lie ever deeper.
proof fn trace_is_deep(
    reach: Reachability,
    r: spec_fn(NodeModel, NodeModel) -> bool,
    order: Seq<NodeModel>,
    origin: Seq<int>,
    path: Seq<NodeModel>,
    target: NodeModel,
    i: int,
    p: int,
)
    requires
        reach.explores(r),
        is_order(reach, r, order, origin),
        reach.is_trace(path, target),
        reach.seeds@.contains(path[0]),
        0 <= i < path.len(),
        0 <= p < order.len(),
        order[p] == path[i],
    ensures
        depth(reach.seeds.list().len() as int, origin, p) == i,
    decreases i,
{
    let s = reach.seeds.list().len() as int;
    if i == 0 {
        assert(!reach.previous@.dom().contains(path[0]));
        assert(reach.previous@.dom().contains(order[p]) == (p >= s));
    } else {
        assert(path[i] != path[0]);
        assert(reach.previous@.dom().contains(order[p]) == (p >= s));
        assert(found_from(r, order, p, origin[p]));
        assert(reach.previous@[order[p]]@ == order[origin[p]]);
        trace_is_deep(reach, r, order, origin, path, target, i - 1, origin[p]);
    }
}

/// The chain along which a node was first reached comes to no node twice and holds no changed
/// node but its first, and no walk from a changed node to that node is shorter.
pub proof fn traces_are_shortest(
    reach: Reachability,
    r: spec_fn(NodeModel, NodeModel) -> bool,
    path: Seq<NodeModel>,
    target: NodeModel,
)
    requires
        reach.explores(r),
        reach.reached@.contains(target),
        reach.is_trace(path, target),
    ensures
        path.no_duplicates(),
        reach.seeds@.contains(path[0]),
        forall|i: int| 1 <= i < path.len() ==> !reach.seeds@.contains(#[trigger] path[i]),
        forall|walk: Seq<NodeModel>|
            is_walk(r, walk) && reach.seeds@.contains(walk[0]) && walk.last() == target
                ==> path.len() <= #[trigger] walk.len(),
{
    traces_are_walks(reach, r, path, target);
    let s = reach.seeds.list().len() as int;
    let (order, origin) = choose|order: Seq<NodeModel>, origin: Seq<int>|
        {
            &&& reach.seeds.list().is_prefix_of(order)
            &&& order.to_set() == reach.reached@
            &&& #[trigger] is_breadth_first(r, s, order, origin)
            &&& follows(s, order, origin, reach.previous@, reach.seed_for@)
        };
    assert(is_order(reach, r, order, origin));
    assert forall|i: int| 1 <= i < path.len() implies !reach.seeds@.contains(#[trigger] path[i]) by {
        assert(reach.previous@.dom().contains(path[i]));
    }
    assert forall|i: int| 0 <= i < path.len() implies reach.reached@.contains(#[trigger] path[i]) by {
        if i > 0 {
            assert(reach.previous@.dom().contains(path[i]));
        } else {
            assert(walk_between(r, seq![path[0]], path[0], path[0]));
            assert(reaches(r, path[0], path[0]));
        }
    }
    assert forall|i: int, j: int| 0 <= i < path.len() && 0 <= j < path.len() && i != j implies path[i]
        != path[j] by {
        let p = place_of(reach, r, order, origin, path[i]);
        trace_is_deep(reach, r, order, origin, path, target, i, p);
        if path[i] == path[j] {
            trace_is_deep(reach, r, order, origin, path, target, j, p);
        }
    }
    let p = place_of(reach, r, order, origin, target);
    trace_is_deep(reach, r, order, origin, path, target, path.len() - 1, p);
    assert forall|walk: Seq<NodeModel>|
        is_walk(r, walk) && reach.seeds@.contains(walk[0]) && walk.last() == target implies path.len()
        <= #[trigger] walk.len() by {
        walks_are_deep(reach, r, order, origin, walk, p);
    }
}

/// A path that comes to no node twice and holds no changed node but its first.
pub open spec fn is_plain(reach: Reachability, path: Seq<NodeModel>) -> bool {
    &&& path.no_duplicates()
    &&& reach.seeds@.contains(path[0])
    &&& forall|i: int| 1 <= i < path.len() ==> !reach.seeds@.contains(#[trigger] path[i])
}

/// No path is shorter than one in front of it.
pub open spec fn never_shorter(paths: Seq<Seq<NodeModel>>) -> bool {
    forall|i: int, j: int|
        0 <= i < j < paths.len() ==> (#[trigger] paths[i]).len() <= (#[trigger] paths[j]).len()
}

/// A chain that is written from its end, `target`: it comes to no node twice, and only its last
/// may be a changed one.
spec fn is_plain_back(reach: Reachability, back: Seq<NodeModel>, target: NodeModel) -> bool {
    &&& back.len() > 0
    &&& back[0] == target
    &&& back.no_duplicates()
    &&& forall|i: int|
        0 <= i && i + 1 < back.len() ==> !reach.seeds@.contains(#[trigger] back[i])
    &&& forall|i: int|
        #![trigger back[i], back[i + 1]]
        0 <= i && i + 1 < back.len() ==> pairs::<Node, Node>(reach.predecessors@).contains(
            (back[i], back[i + 1]),
        )
}

proof fn longer_is_plain(reach: Reachability, back: Seq<NodeModel>, target: NodeModel, n: int)
    requires
        is_plain_back(reach, back, target),
        !reach.seeds@.contains(back.last()),
        0 <= n <= predecessors_of(reach, back.last()).len(),
    ensures
        forall|k: int|
            #![trigger longer_by(back, predecessors_of(reach, back.last()), n)[k]]
            0 <= k < longer_by(back, predecessors_of(reach, back.last()), n).len() ==> is_plain_back(
                reach,
                longer_by(back, predecessors_of(reach, back.last()), n)[k],
                target,
            ) && longer_by(back, predecessors_of(reach, back.last()), n)[k].len() == back.len() + 1,
    decreases n,
{
    let list = predecessors_of(reach, back.last());
    if n > 0 {
        longer_is_plain(reach, back, target, n - 1);
        let shorter = longer_by(back, list, n - 1);
        let all = longer_by(back, list, n);
        assert forall|k: int|
            #![trigger all[k]]
            0 <= k < all.len() implies is_plain_back(reach, all[k], target) && all[k].len()
            == back.len() + 1 by {
            if k < shorter.len() {
                assert(all[k] == shorter[k]);
            } else {
                let next = back.push(list[n - 1]);
                assert(all[k] == next);
                assert(list.contains(list[n - 1]));
                assert(reach.predecessors@[back.last()]@.contains(list[n - 1]));
                assert forall|i: int|
                    #![trigger next[i], next[i + 1]]
                    0 <= i && i + 1 < next.len() implies pairs::<Node, Node>(
                    reach.predecessors@,
                ).contains((next[i], next[i + 1])) by {
                    if i + 1 < back.len() {
                        assert(next[i] == back[i] && next[i + 1] == back[i + 1]);
                    }
                }
                assert forall|i: int|
                    0 <= i && i + 1 < next.len() implies !reach.seeds@.contains(#[trigger] next[i]) by {
                    assert(next[i] == back[i]);
                }
                assert forall|i: int, j: int|
                    0 <= i < next.len() && 0 <= j < next.len() && i != j implies next[i] != next[j] by {
                    if i < back.len() {
                        assert(back.contains(back[i]));
                    }
                    if j < back.len() {
                        assert(back.contains(back[j]));
                    }
                }
            }
        }
    }
}

/// What waits is plain, and what comes first is no longer than the rest and at most one shorter.
spec fn is_waiting(reach: Reachability, pending: Seq<Seq<NodeModel>>, target: NodeModel) -> bool {
    &&& forall|k: int| 0 <= k < pending.len() ==> is_plain_back(reach, #[trigger] pending[k], target)
    &&& never_shorter(pending)
    &&& forall|k: int|
        0 <= k < pending.len() ==> (#[trigger] pending[k]).len() <= pending[0].len() + 1
}

proof fn search_keeps_order(
    reach: Reachability,
    r: spec_fn(NodeModel, NodeModel) -> bool,
    primary: Seq<NodeModel>,
    target: NodeModel,
    limit: nat,
    pending: Seq<Seq<NodeModel>>,
    paths: Seq<Seq<NodeModel>>,
    steps: nat,
)
    requires
        reach.explores(r),
        reach.reached@.contains(target),
        reach.is_trace(primary, target),
        is_waiting(reach, pending, target),
        forall|k: int| 0 <= k < paths.len() ==> is_plain(reach, #[trigger] paths[k]),
        never_shorter(paths),
        forall|k: int, j: int|
            0 <= k < paths.len() && 0 <= j < pending.len() ==> (#[trigger] paths[k]).len()
                <= primary.len() || paths[k].len() <= (#[trigger] pending[j]).len(),
    ensures
        ({
            let found = searched(reach, limit, pending, paths, steps);
            &&& forall|k: int| 0 <= k < found.len() ==> is_plain(reach, #[trigger] found[k])
            &&& never_shorter(found)
        }),
    decreases steps,
{
    if steps > 0 && pending.len() > 0 {
        let back = pending[0];
        let rest = pending.skip(1);
        assert(is_plain_back(reach, pending[0], target));
        assert forall|k: int| 0 <= k < rest.len() implies #[trigger] rest[k] == pending[k + 1] by {}
        if reach.seeds@.contains(back.last()) {
            let path = back.reverse();
            back_is_plain(reach, r, primary, back, target);
            let more = if paths.contains(path) {
                paths
            } else {
                paths.push(path)
            };
            assert forall|k: int| 0 <= k < more.len() implies is_plain(reach, #[trigger] more[k]) by {
                if k < paths.len() {
                    assert(more[k] == paths[k]);
                }
            }
            assert(never_shorter(more)) by {
                assert forall|i: int, j: int| 0 <= i < j < more.len() implies (#[trigger] more[i]).len()
                    <= (#[trigger] more[j]).len() by {
                    assert(more[i] == paths[i]);
                    if j < paths.len() {
                        assert(more[j] == paths[j]);
                    } else {
                        assert(paths[i].len() <= primary.len() || paths[i].len() <= pending[0].len());
                    }
                }
            }
            assert(is_waiting(reach, rest, target)) by {
                if rest.len() > 0 {
                    assert(pending[0].len() <= pending[1].len());
                }
                assert forall|i: int, j: int| 0 <= i < j < rest.len() implies (#[trigger] rest[i]).len()
                    <= (#[trigger] rest[j]).len() by {
                    assert(pending[i + 1].len() <= pending[j + 1].len());
                }
            }
            assert forall|k: int, j: int| 0 <= k < more.len() && 0 <= j < rest.len() implies (
            #[trigger] more[k]).len() <= primary.len() || more[k].len() <= (#[trigger] rest[j]).len() by {
                assert(rest[j] == pending[j + 1]);
                if k < paths.len() {
                    assert(more[k] == paths[k]);
                } else {
                    assert(pending[0].len() <= pending[j + 1].len());
                }
            }
            if more.len() != limit {
                search_keeps_order(
                    reach,
                    r,
                    primary,
                    target,
                    limit,
                    rest,
                    more,
                    (steps - 1) as nat,
                );
            }
        } else {
            let list = predecessors_of(reach, back.last());
            longer_is_plain(reach, back, target, list.len() as int);
            let grown = longer_by(back, list, list.len() as int);
            let next = rest + grown;
            assert forall|k: int| 0 <= k < next.len() implies is_plain_back(
                reach,
                #[trigger] next[k],
                target,
            ) && back.len() <= next[k].len() <= back.len() + 1 && (k >= rest.len() ==> next[k].len()
                == back.len() + 1) by {
                if k < rest.len() {
                    assert(next[k] == pending[k + 1]);
                    assert(pending[0].len() <= pending[k + 1].len());
                } else {
                    assert(next[k] == grown[k - rest.len()]);
                }
            }
            assert(is_waiting(reach, next, target)) by {
                assert forall|i: int, j: int| 0 <= i < j < next.len() implies (#[trigger] next[i]).len()
                    <= (#[trigger] next[j]).len() by {
                    if j < rest.len() {
                        assert(next[i] == pending[i + 1] && next[j] == pending[j + 1]);
                    }
                }
            }
            assert forall|k: int, j: int| 0 <= k < paths.len() && 0 <= j < next.len() implies (
            #[trigger] paths[k]).len() <= primary.len() || paths[k].len() <= (#[trigger] next[j]).len() by {
                assert(paths[k].len() <= primary.len() || paths[k].len() <= pending[0].len());
            }
            search_keeps_order(reach, r, primary, target, limit, next, paths, (steps - 1) as nat);
        }
    }
}

/// A chain that has come to a changed node is a plain path, no shorter than the first.
proof fn back_is_plain(
    reach: Reachability,
    r: spec_fn(NodeModel, NodeModel) -> bool,
    primary: Seq<NodeModel>,
    back: Seq<NodeModel>,
    target: NodeModel,
)
    requires
        reach.explores(r),
        reach.reached@.contains(target),
        reach.is_trace(primary, target),
        is_plain_back(reach, back, target),
        reach.seeds@.contains(back.last()),
    ensures
        is_plain(reach, back.reverse()),
        primary.len() <= back.reverse().len(),
{
    let path = back.reverse();
    assert(path[0] == back.last());
    assert(path.last() == back[0]);
    assert forall|i: int| 1 <= i < path.len() implies !reach.seeds@.contains(#[trigger] path[i]) by {
        assert(path[i] == back[back.len() - 1 - i]);
    }
    assert forall|i: int, j: int| 0 <= i < path.len() && 0 <= j < path.len() && i != j implies path[i]
        != path[j] by {
        assert(back[back.len() - 1 - i] != back[back.len() - 1 - j]);
    }
    assert forall|i: int|
        #![trigger path[i], path[i + 1]]
        0 <= i && i + 1 < path.len() implies r(path[i], path[i + 1]) by {
        let j = back.len() - 2 - i;
        assert(path[i + 1] == back[j] && path[i] == back[j + 1]);
        assert(pairs::<Node, Node>(reach.predecessors@).contains((back[j], back[j + 1])));
    }
    assert(is_walk(r, path));
    traces_are_shortest(reach, r, primary, target);
}

/// The paths to a reached node come to no node twice, hold no changed node but their first, and
/// none is shorter than one in front of it.
pub proof fn paths_are_plain_and_ordered(
    reach: Reachability,
    r: spec_fn(NodeModel, NodeModel) -> bool,
    primary: Seq<NodeModel>,
    target: NodeModel,
    limit: usize,
)
    requires
        reach.explores(r),
        reach.reached@.contains(target),
        reach.is_trace(primary, target),
        limit > 0,
    ensures
        ({
            let found = paths_of(reach, primary, target, limit);
            &&& forall|k: int| 0 <= k < found.len() ==> is_plain(reach, #[trigger] found[k])
            &&& never_shorter(found)
        }),
{
    traces_are_shortest(reach, r, primary, target);
    if limit > 1 {
        let pending = seq![seq![target]];
        assert(is_plain_back(reach, pending[0], target));
        search_keeps_order(
            reach,
            r,
            primary,
            target,
            limit as nat,
            pending,
            seq![primary],
            search_budget(limit),
        );
    }
}

/// The chain along which the node at the place `p` was first reached.
spec fn trace_at(s: int, order: Seq<NodeModel>, origin: Seq<int>, p: int) -> Seq<NodeModel>
    decreases p,
{
    if p < s || p < 0 || !(0 <= origin[p] < p) {
        seq![order[p]]
    } else {
        trace_at(s, order, origin, origin[p]).push(order[p])
    }
}

proof fn traces_lead_there(
    reach: Reachability,
    r: spec_fn(NodeModel, NodeModel) -> bool,
    order: Seq<NodeModel>,
    origin: Seq<int>,
    p: int,
)
    requires
        is_order(reach, r, order, origin),
        0 <= p < order.len(),
    ensures
        ({
            let path = trace_at(reach.seeds.list().len() as int, order, origin, p);
            &&& reach.is_trace(path, order[p])
            &&& !reach.previous@.dom().contains(path[0])
        }),
    decreases p,
{
    let s = reach.seeds.list().len() as int;
    assert(reach.previous@.dom().contains(order[p]) == (p >= s));
    if p >= s {
        assert(found_from(r, order, p, origin[p]));
        traces_lead_there(reach, r, order, origin, origin[p]);
        let front = trace_at(s, order, origin, origin[p]);
        let path = front.push(order[p]);
        assert(reach.previous@[order[p]]@ == order[origin[p]]);
        assert(path[0] == front[0]);
        assert forall|i: int| 1 <= i < path.len() implies #[trigger] path[i] != path[0]
            && reach.previous@.dom().contains(path[i]) && reach.previous@[path[i]]@ == path[i - 1] by {
            if i < front.len() {
                assert(path[i] == front[i] && path[i - 1] == front[i - 1]);
            } else {
                assert(path[i - 1] == front.last());
            }
        }
    } else {
        assert(reach.seed_for@[order[p]]@ == order[p]);
    }
}

/// There is a chain along which a reached node was first reached.
pub proof fn traces_exist(
    reach: Reachability,
    r: spec_fn(NodeModel, NodeModel) -> bool,
    target: NodeModel,
)
    requires
        reach.explores(r),
        reach.reached@.contains(target),
    ensures
        exists|path: Seq<NodeModel>| reach.is_trace(path, target),
{
    let s = reach.seeds.list().len() as int;
    let (order, origin) = choose|order: Seq<NodeModel>, origin: Seq<int>|
        {
            &&& reach.seeds.list().is_prefix_of(order)
            &&& order.to_set() == reach.reached@
            &&& #[trigger] is_breadth_first(r, s, order, origin)
            &&& follows(s, order, origin, reach.previous@, reach.seed_for@)
        };
    assert(is_order(reach, r, order, origin));
    let p = place_of(reach, r, order, origin, target);
    traces_lead_there(reach, r, order, origin, p);
}

/// The paths that explain why a node is reached. There are none where it is not reached, and at
/// most `limit`; the first is the chain along which it was first reached. No two are the same and
/// none is shorter than one in front of it. Each leads along consumers from a changed node, the
/// only one in it, to the node, and comes to no node twice.
pub proof fn reasons_are_plain_paths(
    reach: Reachability,
    r: spec_fn(NodeModel, NodeModel) -> bool,
    target: NodeModel,
    limit: usize,
)
    requires
        reach.explores(r),
    ensures
        ({
            let found = reason_paths(reach, target, limit);
            &&& found.len() <= limit
            &&& found.len() == 0 <==> limit == 0 || !reach.reached@.contains(target)
            &&& found.len() > 0 ==> reach.is_trace(found[0], target)
            &&& found.no_duplicates()
            &&& never_shorter(found)
            &&& forall|k: int|
                0 <= k < found.len() ==> is_impact_path(reach, #[trigger] found[k], target)
                    && is_plain(reach, found[k])
        }),
{
    if limit > 0 && reach.reached@.contains(target) {
        traces_exist(reach, r, target);
        let primary = choose|primary: Seq<NodeModel>| reach.is_trace(primary, target);
        paths_are_impact_paths(reach, r, primary, target, limit);
        paths_are_plain_and_ordered(reach, r, primary, target, limit);
    }
}

} // verus!
