//! What a change reaches, and along which chains of dependencies.
use vstd::prelude::*;

use crate::collections::{
    ascending, difference_shrinks, pairs, push_to_set, union_over, union_over_all, union_over_next,
    union_over_none, KeyMap, KeySet,
};
use crate::graph::links::{edges_in, Edge, EdgeMap};
use crate::graph::node::{Node, NodeModel};
use crate::order::{models, Key};
use crate::walk::{all_points, closed_holds_reached, listed, points, reaches, reaches_self, reaches_step};

verus! {

/// What a set of changed nodes reaches: for every reached node the one it was first reached from
/// and the changed node at the start of that chain, and all nodes it can be reached from.
pub struct Reachability {
    pub reached: KeySet<Node>,
    pub previous: KeyMap<Node, Node>,
    pub seed_for: KeyMap<Node, Node>,
    pub predecessors: KeyMap<Node, KeySet<Node>>,
    pub seeds: KeySet<Node>,
}

/// The second node consumes the first.
pub open spec fn consumed_by(edges: Set<Edge>) -> spec_fn(NodeModel, NodeModel) -> bool {
    |a: NodeModel, b: NodeModel| edges.contains((b, a))
}

/// Node `p` of `order` was found from node `q`: it consumes that node and none of the nodes in
/// front of it.
pub open spec fn found_from(
    r: spec_fn(NodeModel, NodeModel) -> bool,
    order: Seq<NodeModel>,
    p: int,
    q: int,
) -> bool {
    &&& 0 <= q < p
    &&& r(order[q], order[p])
    &&& forall|k: int| 0 <= k < q ==> !r(#[trigger] order[k], order[p])
}

/// `order` lists nodes in breadth-first order behind its first `s`, and `origin` says from which
/// place each was found: first come those found from earlier places, and those found from one
/// place come in ascending order.
pub open spec fn is_breadth_first(
    r: spec_fn(NodeModel, NodeModel) -> bool,
    s: int,
    order: Seq<NodeModel>,
    origin: Seq<int>,
) -> bool {
    &&& 0 <= s <= order.len()
    &&& origin.len() == order.len()
    &&& order.no_duplicates()
    &&& forall|p: int| s <= p < order.len() ==> found_from(r, order, p, #[trigger] origin[p])
    &&& forall|p: int, q: int|
        s <= p < q < order.len() ==> #[trigger] origin[p] < #[trigger] origin[q] || (origin[p]
            == origin[q] && Node::precedes(order[p], order[q]))
}

/// The chains that a breadth-first order describes.
pub open spec fn follows(
    s: int,
    order: Seq<NodeModel>,
    origin: Seq<int>,
    previous: Map<NodeModel, Node>,
    seed_for: Map<NodeModel, Node>,
) -> bool {
    &&& forall|p: int|
        0 <= p < order.len() ==> seed_for.dom().contains(#[trigger] order[p])
            && previous.dom().contains(order[p]) == (p >= s)
    &&& forall|p: int| 0 <= p < s ==> seed_for[#[trigger] order[p]]@ == order[p]
    &&& forall|p: int|
        s <= p < order.len() ==> previous[order[p]]@ == order[#[trigger] origin[p]]
            && seed_for[order[p]]@ == seed_for[order[origin[p]]]@
}

impl Reachability {
    /// This is what `seeds` reach along `r`, explored breadth first from the seeds in ascending
    /// order.
    pub open spec fn explores(self, r: spec_fn(NodeModel, NodeModel) -> bool) -> bool {
        &&& forall|n: NodeModel|
            #[trigger] self.reached@.contains(n) <==> exists|s: NodeModel|
                self.seeds@.contains(s) && #[trigger] reaches(r, s, n)
        &&& self.seed_for@.dom() == self.reached@
        &&& self.previous@.dom() == self.reached@.difference(self.seeds@)
        &&& pairs::<Node, Node>(self.predecessors@) == Set::new(
            |e: Edge| self.reached@.contains(e.1) && r(e.1, e.0),
        )
        &&& exists|order: Seq<NodeModel>, origin: Seq<int>|
            {
                &&& self.seeds.list().is_prefix_of(order)
                &&& order.to_set() == self.reached@
                &&& #[trigger] is_breadth_first(r, self.seeds.list().len() as int, order, origin)
                &&& follows(
                    self.seeds.list().len() as int,
                    order,
                    origin,
                    self.previous@,
                    self.seed_for@,
                )
            }
    }
}

/// The edges of both maps turned round.
pub open spec fn reversed(edges: Set<Edge>) -> Set<Edge> {
    Set::new(|e: Edge| edges.contains((e.1, e.0)))
}

spec fn turned(consumer: NodeModel) -> spec_fn(NodeModel) -> Set<Edge> {
    |d: NodeModel| set![(d, consumer)]
}

spec fn turned_all(edges: Map<NodeModel, KeySet<Node>>) -> spec_fn(NodeModel) -> Set<Edge> {
    |c: NodeModel| union_over(edges[c].list(), turned(c))
}

fn reverse_of(consumer: &Node, dependencies: &KeySet<Node>, out: &mut EdgeMap)
    ensures
        edges_in(*final(out)) == edges_in(*old(out)).union(
            union_over(dependencies.list(), turned(consumer@)),
        ),
{
    let ghost start = edges_in(*out);
    let ghost list = dependencies.list();
    let ghost f = turned(consumer@);
    let n = dependencies.len();
    proof {
        union_over_none(list.take(0), f);
        assert(start.union(Set::empty()) =~= start);
    }
    let mut i: usize = 0;
    while i < n
        invariant
            i <= n,
            n == list.len(),
            list == dependencies.list(),
            f == turned(consumer@),
            edges_in(*out) == start.union(union_over(list.take(i as int), f)),
        decreases n - i,
    {
        out.link(dependencies.at(i).dup(), consumer.dup());
        proof {
            union_over_next(list, f, i as int);
            assert(edges_in(*out) =~= start.union(union_over(list.take(i + 1), f)));
        }
        i += 1;
    }
    proof {
        union_over_all(list, f, n as int);
    }
}

fn add_reversed(edges: &EdgeMap, out: &mut EdgeMap)
    ensures
        edges_in(*final(out)) == edges_in(*old(out)).union(reversed(edges_in(*edges))),
{
    let ghost start = edges_in(*out);
    let ghost keys = edges.keys();
    let ghost f = turned_all(edges@);
    let n = edges.len();
    proof {
        union_over_none(keys.take(0), f);
        assert(start.union(Set::empty()) =~= start);
    }
    let mut i: usize = 0;
    while i < n
        invariant
            i <= n,
            n == keys.len(),
            keys == edges.keys(),
            f == turned_all(edges@),
            edges_in(*out) == start.union(union_over(keys.take(i as int), f)),
        decreases n - i,
    {
        reverse_of(edges.key_at(i), edges.value_at(i), out);
        proof {
            union_over_next(keys, f, i as int);
            assert(edges_in(*out) =~= start.union(union_over(keys.take(i + 1), f)));
        }
        i += 1;
    }
    proof {
        union_over_all(keys, f, n as int);
        let goal = reversed(edges_in(*edges));
        assert forall|e: Edge| union_over(keys, f).contains(e) == goal.contains(e) by {
            if union_over(keys, f).contains(e) {
                let k = choose|k: int| 0 <= k < keys.len() && (#[trigger] f(keys[k])).contains(e);
                let g = turned(keys[k]);
                let l = edges@[keys[k]].list();
                let x = choose|x: int| 0 <= x < l.len() && (#[trigger] g(l[x])).contains(e);
                assert(keys.contains(keys[k]));
                assert(l.contains(l[x]));
            }
            if goal.contains(e) {
                let k = choose|k: int| 0 <= k < keys.len() && keys[k] == e.1;
                let g = turned(keys[k]);
                let l = edges@[keys[k]].list();
                let x = choose|x: int| 0 <= x < l.len() && l[x] == e.0;
                assert(g(l[x]).contains(e));
                assert(f(keys[k]).contains(e));
            }
        }
        assert(union_over(keys, f) =~= goal);
    }
}

/// The state of the search while it looks at place `head` and has looked at `seen` of that
/// node's consumers.
spec fn searching(
    r: spec_fn(NodeModel, NodeModel) -> bool,
    seeds: Seq<NodeModel>,
    order: Seq<NodeModel>,
    origin: Seq<int>,
    reached: Set<NodeModel>,
    head: int,
    seen: Seq<NodeModel>,
) -> bool {
    &&& seeds.is_prefix_of(order)
    &&& order.to_set() == reached
    &&& is_breadth_first(r, seeds.len() as int, order, origin)
    &&& 0 <= head <= order.len()
    &&& forall|p: int| seeds.len() <= p < order.len() ==> #[trigger] origin[p] <= head
    &&& forall|p: int|
        seeds.len() <= p < order.len() && #[trigger] origin[p] == head ==> seen.contains(order[p])
    &&& forall|q: int, b: NodeModel|
        0 <= q < head && #[trigger] r(order[q], b) ==> reached.contains(b)
    &&& forall|k: int| 0 <= k < seen.len() ==> reached.contains(#[trigger] seen[k])
    &&& forall|n: NodeModel|
        #[trigger] reached.contains(n) ==> exists|s: NodeModel|
            seeds.contains(s) && #[trigger] reaches(r, s, n)
}

/// One more consumer of the node at `head` is found.
proof fn searching_finds(
    r: spec_fn(NodeModel, NodeModel) -> bool,
    seeds: Seq<NodeModel>,
    order: Seq<NodeModel>,
    origin: Seq<int>,
    reached: Set<NodeModel>,
    head: int,
    consumers: Seq<NodeModel>,
    e: int,
)
    requires
        searching(r, seeds, order, origin, reached, head, consumers.take(e)),
        ascending::<Node>(consumers),
        0 <= e < consumers.len(),
        head < order.len(),
        r(order[head], consumers[e]),
        !reached.contains(consumers[e]),
    ensures
        searching(
            r,
            seeds,
            order.push(consumers[e]),
            origin.push(head),
            reached.insert(consumers[e]),
            head,
            consumers.take(e + 1),
        ),
{
    let c = consumers[e];
    let order2 = order.push(c);
    let origin2 = origin.push(head);
    let s = seeds.len() as int;
    push_to_set(order, c);
    assert(!order.contains(c)) by {
        assert(order.to_set().contains(c) == order.contains(c));
    }
    assert(seeds.is_prefix_of(order2)) by {
        assert(order2.subrange(0, s) =~= order.subrange(0, s));
    }
    assert(order2.no_duplicates()) by {
        assert forall|i: int, j: int| 0 <= i < order2.len() && 0 <= j < order2.len() && i != j implies order2[i]
            != order2[j] by {
            if i < order.len() && j < order.len() {
                assert(order[i] != order[j]);
            } else if i < order.len() {
                assert(order.contains(order[i]));
            } else {
                assert(order.contains(order[j]));
            }
        }
    }
    assert forall|p: int| s <= p < order2.len() implies found_from(r, order2, p, #[trigger] origin2[p]) by {
        if p < order.len() {
            assert(found_from(r, order, p, origin[p]));
            let q = origin[p];
            assert forall|k: int| 0 <= k < q implies !r(#[trigger] order2[k], order2[p]) by {
                assert(!r(order[k], order[p]));
            }
        } else {
            assert forall|k: int| 0 <= k < head implies !r(#[trigger] order2[k], order2[p]) by {
                if r(order[k], c) {
                    assert(reached.contains(c));
                }
            }
        }
    }
    assert forall|p: int, q: int| s <= p < q < order2.len() implies #[trigger] origin2[p]
        < #[trigger] origin2[q] || (origin2[p] == origin2[q] && Node::precedes(
        order2[p],
        order2[q],
    )) by {
        if q < order.len() {
            assert(origin[p] < origin[q] || (origin[p] == origin[q] && Node::precedes(
                order[p],
                order[q],
            )));
        } else {
            assert(origin[p] <= head);
            if origin[p] == head {
                assert(consumers.take(e).contains(order[p]));
                let k = choose|k: int|
                    0 <= k < consumers.take(e).len() && consumers.take(e)[k] == order[p];
                assert(Node::precedes(consumers[k], consumers[e]));
            }
        }
    }
    assert forall|p: int| s <= p < order2.len() && #[trigger] origin2[p] == head implies consumers.take(
        e + 1,
    ).contains(order2[p]) by {
        if p < order.len() {
            assert(origin[p] == head);
            let k = choose|k: int|
                0 <= k < consumers.take(e).len() && consumers.take(e)[k] == order[p];
            assert(consumers.take(e + 1)[k] == order2[p]);
        } else {
            assert(consumers.take(e + 1)[e] == c);
        }
    }
    assert forall|q: int, b: NodeModel| 0 <= q < head && #[trigger] r(order2[q], b) implies reached.insert(
        c,
    ).contains(b) by {
        assert(r(order[q], b));
    }
    assert forall|k: int| 0 <= k < consumers.take(e + 1).len() implies reached.insert(c).contains(
        #[trigger] consumers.take(e + 1)[k],
    ) by {
        if k < e {
            assert(reached.contains(consumers.take(e)[k]));
        }
    }
    assert(order.contains(order[head]));
    assert(reached.contains(order[head]));
    let x = choose|x: NodeModel| seeds.contains(x) && #[trigger] reaches(r, x, order[head]);
    reaches_step(r, x, order[head], c);
}

/// A consumer that was found before changes nothing.
proof fn searching_passes(
    r: spec_fn(NodeModel, NodeModel) -> bool,
    seeds: Seq<NodeModel>,
    order: Seq<NodeModel>,
    origin: Seq<int>,
    reached: Set<NodeModel>,
    head: int,
    consumers: Seq<NodeModel>,
    e: int,
)
    requires
        searching(r, seeds, order, origin, reached, head, consumers.take(e)),
        0 <= e < consumers.len(),
        reached.contains(consumers[e]),
    ensures
        searching(r, seeds, order, origin, reached, head, consumers.take(e + 1)),
{
    assert forall|p: int| seeds.len() <= p < order.len() && #[trigger] origin[p] == head implies consumers.take(
        e + 1,
    ).contains(order[p]) by {
        let k = choose|k: int|
            0 <= k < consumers.take(e).len() && consumers.take(e)[k] == order[p];
        assert(consumers.take(e + 1)[k] == order[p]);
    }
    assert forall|k: int| 0 <= k < consumers.take(e + 1).len() implies reached.contains(
        #[trigger] consumers.take(e + 1)[k],
    ) by {
        if k < e {
            assert(reached.contains(consumers.take(e)[k]));
        }
    }
}

/// All consumers of the node at `head` were looked at.
proof fn searching_advances(
    r: spec_fn(NodeModel, NodeModel) -> bool,
    seeds: Seq<NodeModel>,
    order: Seq<NodeModel>,
    origin: Seq<int>,
    reached: Set<NodeModel>,
    head: int,
    consumers: Seq<NodeModel>,
)
    requires
        searching(r, seeds, order, origin, reached, head, consumers),
        head < order.len(),
        forall|b: NodeModel| #[trigger] r(order[head], b) ==> consumers.contains(b),
    ensures
        searching(r, seeds, order, origin, reached, head + 1, Seq::empty()),
{
    assert forall|q: int, b: NodeModel| 0 <= q < head + 1 && #[trigger] r(order[q], b) implies reached.contains(
        b,
    ) by {
        if q == head {
            let k = choose|k: int| 0 <= k < consumers.len() && consumers[k] == b;
            assert(reached.contains(consumers[k]));
        }
    }
    assert forall|p: int| seeds.len() <= p < order.len() implies #[trigger] origin[p] <= head + 1
        && origin[p] != head + 1 by {
        assert(origin[p] <= head);
    }
}

/// The predecessors that are known after looking at `seen` of the consumers of place `head`.
spec fn pred_pairs(
    r: spec_fn(NodeModel, NodeModel) -> bool,
    order: Seq<NodeModel>,
    head: int,
    seen: Seq<NodeModel>,
) -> Set<Edge> {
    Set::new(
        |e: Edge|
            (exists|q: int| 0 <= q < head && e.1 == #[trigger] order[q] && r(order[q], e.0)) || (head
                < order.len() && e.1 == order[head] && seen.contains(e.0)),
    )
}

/// Explores what `seeds` reach from consumer to consumer.
pub fn explore(edges: &EdgeMap, type_edges: Option<&EdgeMap>, seeds: &KeySet<Node>) -> (r: Reachability)
    ensures
        r.seeds.list() == seeds.list(),
        r.seeds@ == seeds@,
        r.explores(
            consumed_by(
                match type_edges {
                    Some(t) => edges_in(*edges).union(edges_in(*t)),
                    None => edges_in(*edges),
                },
            ),
        ),
{
    let ghost all_edges = match type_edges {
        Some(t) => edges_in(*edges).union(edges_in(*t)),
        None => edges_in(*edges),
    };
    let mut reverse: EdgeMap = KeyMap::new();
    assert(edges_in(reverse) =~= Set::empty());
    add_reversed(edges, &mut reverse);
    match type_edges {
        Some(t) => add_reversed(t, &mut reverse),
        None => {},
    }
    let ghost r = consumed_by(all_edges);
    proof {
        assert(edges_in(reverse) =~= reversed(all_edges));
        assert(listed(reverse@) =~= r) by {
            assert forall|a: NodeModel, b: NodeModel| #[trigger] listed(reverse@)(a, b) == r(a, b) by {
                assert(edges_in(reverse).contains((a, b)) == reversed(all_edges).contains((a, b)));
            }
        }
    }
    let all = all_points(&reverse);
    let ghost universe = all@.union(seeds@);
    let ghost sl = seeds.list();
    let ghost s = sl.len() as int;
    let count = seeds.len();
    let mut reached = seeds.dup();
    let mut previous: KeyMap<Node, Node> = KeyMap::new();
    let mut seed_for: KeyMap<Node, Node> = KeyMap::new();
    let mut predecessors: EdgeMap = KeyMap::new();
    let mut order: Vec<Node> = Vec::new();
    let mut i: usize = 0;
    while i < count
        invariant
            i <= count,
            count == sl.len(),
            sl == seeds.list(),
            ascending::<Node>(sl),
            models(order@) =~= sl.take(i as int),
            seed_for@.dom() =~= sl.take(i as int).to_set(),
            forall|k: int| 0 <= k < i ==> seed_for@[#[trigger] sl[k]]@ == sl[k],
        decreases count - i,
    {
        let ghost before = models(order@);
        let ghost known = seed_for@;
        let seed = seeds.at(i);
        seed_for.insert(seed.dup(), seed.dup());
        order.push(seed.dup());
        proof {
            assert(models(order@) =~= before.push(sl[i as int]));
            assert(sl.take(i + 1) =~= sl.take(i as int).push(sl[i as int]));
            push_to_set(sl.take(i as int), sl[i as int]);
            assert forall|k: int| 0 <= k < i + 1 implies seed_for@[#[trigger] sl[k]]@ == sl[k] by {
                if k < i && sl[k] == sl[i as int] {
                    crate::collections::ascending_is_distinct::<Node>(sl, k, i as int);
                }
            }
        }
        i += 1;
    }
    let ghost mut origin: Seq<int> = Seq::new(sl.len(), |k: int| 0int);
    let mut head: usize = 0;
    proof {
        all.is_finite();
        seeds.is_finite();
        assert(sl.take(s) =~= sl);
        let o = models(order@);
        assert(o.subrange(0, s) =~= o);
        assert forall|a: int, b: int| 0 <= a < o.len() && 0 <= b < o.len() && a != b implies o[a] != o[b] by {
            if o[a] == o[b] {
                crate::collections::ascending_is_distinct::<Node>(sl, a, b);
            }
        }
        assert forall|n: NodeModel| #[trigger] reached@.contains(n) implies exists|x: NodeModel|
            sl.contains(x) && #[trigger] reaches(r, x, n) by {
            reaches_self(r, n);
            assert(sl.contains(n) && reaches(r, n, n));
        }
        assert(searching(r, sl, o, origin, reached@, 0, Seq::empty()));
        assert(pairs::<Node, Node>(predecessors@) =~= pred_pairs(r, o, 0, Seq::empty()));
        assert(previous@.dom() =~= reached@.difference(seeds@));
    }
    while head < order.len()
        invariant
            sl == seeds.list(),
            s == sl.len(),
            r == listed(reverse@),
            all@ == points(reverse@),
            universe == all@.union(seeds@),
            universe.finite(),
            reached@.subset_of(universe),
            head <= order.len(),
            searching(r, sl, models(order@), origin, reached@, head as int, Seq::empty()),
            follows(s, models(order@), origin, previous@, seed_for@),
            seed_for@.dom() == reached@,
            previous@.dom() == reached@.difference(seeds@),
            pairs::<Node, Node>(predecessors@) == pred_pairs(
                r,
                models(order@),
                head as int,
                Seq::empty(),
            ),
        decreases universe.difference(reached@).len(), order.len() - head,
    {
        let node = order[head].dup();
        let ghost here = node@;
        assert(models(order@)[head as int] == here);
        assert(models(order@).contains(here));
        assert(models(order@).to_set().contains(here));
        assert(reached@.contains(here));
        let ghost measure = universe.difference(reached@).len();
        let ghost size = order.len();
        match reverse.get(&node) {
            None => {
                proof {
                    let o = models(order@);
                    searching_advances(r, sl, o, origin, reached@, head as int, Seq::empty());
                    let pa = pred_pairs(r, o, head as int, Seq::empty());
                    let pb = pred_pairs(r, o, head + 1, Seq::empty());
                    assert(pa =~= pb) by {
                        assert forall|e: Edge| #[trigger] pa.contains(e) == pb.contains(e) by {
                            if pa.contains(e) {
                                let q = choose|q: int| 0 <= q < head && e.1 == #[trigger] o[q] && r(o[q], e.0);
                                assert(e.1 == o[q]);
                            }
                            if pb.contains(e) {
                                let q = choose|q: int| 0 <= q < head + 1 && e.1 == #[trigger] o[q] && r(o[q], e.0);
                                assert(e.1 == o[q]);
                            }
                        }
                    }
                }
            },
            Some(consumers) => {
                let n = consumers.len();
                let ghost cl = consumers.list();
                let mut e: usize = 0;
                assert(cl.take(0) =~= Seq::empty());
                while e < n
                    invariant
                        e <= n,
                        n == cl.len(),
                        cl == consumers.list(),
                        ascending::<Node>(cl),
                        reverse@.dom().contains(here),
                        reverse@[here] == *consumers,
                        sl == seeds.list(),
                        s == sl.len(),
                        r == listed(reverse@),
                        all@ == points(reverse@),
                        universe == all@.union(seeds@),
                        universe.finite(),
                        reached@.subset_of(universe),
                        head < order.len(),
                        node@ == here,
                        models(order@)[head as int] == here,
                        reached@.contains(here),
                        searching(
                            r,
                            sl,
                            models(order@),
                            origin,
                            reached@,
                            head as int,
                            cl.take(e as int),
                        ),
                        follows(s, models(order@), origin, previous@, seed_for@),
                        seed_for@.dom() == reached@,
                        previous@.dom() == reached@.difference(seeds@),
                        pairs::<Node, Node>(predecessors@) == pred_pairs(
                            r,
                            models(order@),
                            head as int,
                            cl.take(e as int),
                        ),
                        universe.difference(reached@).len() < measure || (universe.difference(
                            reached@,
                        ).len() == measure && order.len() == size),
                    decreases n - e,
                {
                    let consumer = consumers.at(e);
                    let ghost c = consumer@;
                    let ghost o = models(order@);
                    let ghost old_reached = reached@;
                    let ghost old_previous = previous@;
                    let ghost old_seed_for = seed_for@;
                    let ghost old_origin = origin;
                    proof {
                        assert(r(here, c));
                        assert(all@.contains(c));
                        assert(cl.take(e + 1) =~= cl.take(e as int).push(c));
                        push_to_set(cl.take(e as int), c);
                        let longer = cl.take(e + 1);
                        assert forall|x: NodeModel| #[trigger] longer.contains(x) == (cl.take(
                            e as int,
                        ).contains(x) || x == c) by {
                            assert(longer.contains(x) == longer.to_set().contains(x));
                            assert(cl.take(e as int).contains(x) == cl.take(e as int).to_set().contains(x));
                        }
                    }
                    predecessors.link(consumer.dup(), node.dup());
                    assert(pairs::<Node, Node>(predecessors@) =~= pred_pairs(
                        r,
                        o,
                        head as int,
                        cl.take(e + 1),
                    ));
                    if reached.insert(consumer.dup()) {
                        previous.insert(consumer.dup(), node.dup());
                        let seed = seed_for.get(&node).unwrap().dup();
                        seed_for.insert(consumer.dup(), seed);
                        order.push(consumer.dup());
                        proof {
                            difference_shrinks(universe, old_reached, c);
                            assert(models(order@) =~= o.push(c));
                            origin = origin.push(head as int);
                            searching_finds(
                                r,
                                sl,
                                o,
                                old_origin,
                                old_reached,
                                head as int,
                                cl,
                                e as int,
                            );
                            let o2 = models(order@);
                            assert(!seeds@.contains(c)) by {
                                if sl.contains(c) {
                                    let k = choose|k: int| 0 <= k < sl.len() && sl[k] == c;
                                    assert(o.subrange(0, s)[k] == c);
                                    assert(o[k] == c);
                                    assert(o.to_set().contains(c));
                                }
                            }
                            assert forall|p: int| 0 <= p < o.len() implies #[trigger] o2[p] == o[p] && o[p] != c
                                && old_reached.contains(o[p]) by {
                                assert(o.contains(o[p]));
                                assert(o.to_set().contains(o[p]));
                            }
                            assert(follows(s, o2, origin, previous@, seed_for@)) by {
                                assert forall|p: int| 0 <= p < o2.len() implies seed_for@.dom().contains(
                                    #[trigger] o2[p],
                                ) && previous@.dom().contains(o2[p]) == (p >= s) by {
                                    if p < o.len() {
                                        assert(old_seed_for.dom().contains(o[p]));
                                        assert(old_previous.dom().contains(o[p]) == (p >= s));
                                    }
                                }
                                assert forall|p: int| 0 <= p < s implies seed_for@[#[trigger] o2[p]]@ == o2[p] by {
                                    assert(old_seed_for[o[p]]@ == o[p]);
                                }
                                assert forall|p: int| s <= p < o2.len() implies previous@[o2[p]]@ == o2[#[trigger] origin[p]]
                                    && seed_for@[o2[p]]@ == seed_for@[o2[origin[p]]]@ by {
                                    if p < o.len() {
                                        let q = old_origin[p];
                                        assert(found_from(r, o, p, q));
                                        assert(o2[q] == o[q]);
                                        assert(old_previous[o[p]]@ == o[q]);
                                        assert(o2[p] == o[p]);
                                    } else {
                                        assert(o2[head as int] == o[head as int]);
                                    }
                                }
                            }
                            assert(seed_for@.dom() =~= reached@);
                            assert(previous@.dom() =~= reached@.difference(seeds@));
                            let pa = pred_pairs(r, o2, head as int, cl.take(e + 1));
                            let pb = pred_pairs(r, o, head as int, cl.take(e + 1));
                            assert(pa =~= pb) by {
                                assert forall|x: Edge| #[trigger] pa.contains(x) == pb.contains(x) by {
                                    if exists|q: int| 0 <= q < head && x.1 == #[trigger] o2[q] && r(o2[q], x.0) {
                                        let q = choose|q: int| 0 <= q < head && x.1 == #[trigger] o2[q] && r(o2[q], x.0);
                                        assert(x.1 == o[q] && r(o[q], x.0));
                                    }
                                    if exists|q: int| 0 <= q < head && x.1 == #[trigger] o[q] && r(o[q], x.0) {
                                        let q = choose|q: int| 0 <= q < head && x.1 == #[trigger] o[q] && r(o[q], x.0);
                                        assert(x.1 == o2[q] && r(o2[q], x.0));
                                    }
                                    assert(o2[head as int] == o[head as int]);
                                }
                            }
                        }
                    } else {
                        proof {
                            assert(reached@ =~= old_reached);
                            searching_passes(
                                r,
                                sl,
                                o,
                                origin,
                                old_reached,
                                head as int,
                                cl,
                                e as int,
                            );
                        }
                    }
                    e += 1;
                }
                proof {
                    let o = models(order@);
                    assert(cl.take(n as int) =~= cl);
                    assert forall|b: NodeModel| #[trigger] r(o[head as int], b) implies cl.contains(b) by {
                        assert(consumers@.contains(b));
                    }
                    searching_advances(r, sl, o, origin, reached@, head as int, cl);
                    let pa = pred_pairs(r, o, head as int, cl);
                    let pb = pred_pairs(r, o, head + 1, Seq::empty());
                    assert(pa =~= pb) by {
                        assert forall|x: Edge| #[trigger] pa.contains(x) == pb.contains(x) by {
                            if x.1 == o[head as int] && cl.contains(x.0) {
                                assert(consumers@.contains(x.0));
                                assert(r(o[head as int], x.0));
                            }
                            if exists|q: int| 0 <= q < head && x.1 == #[trigger] o[q] && r(o[q], x.0) {
                                let q = choose|q: int| 0 <= q < head && x.1 == #[trigger] o[q] && r(o[q], x.0);
                                assert(x.1 == o[q]);
                            }
                            if exists|q: int| 0 <= q < head + 1 && x.1 == #[trigger] o[q] && r(o[q], x.0) {
                                let q = choose|q: int| 0 <= q < head + 1 && x.1 == #[trigger] o[q] && r(o[q], x.0);
                                if q == head {
                                    assert(r(o[head as int], x.0));
                                } else {
                                    assert(x.1 == o[q] && r(o[q], x.0));
                                }
                            }
                        }
                    }
                }
            },
        }
        head += 1;
    }
    let result = Reachability { reached, previous, seed_for, predecessors, seeds: seeds.dup() };
    proof {
        let o = models(order@);
        assert forall|n: NodeModel|
            #[trigger] result.reached@.contains(n) <==> exists|x: NodeModel|
                result.seeds@.contains(x) && #[trigger] reaches(r, x, n) by {
            if result.reached@.contains(n) {
                let x = choose|x: NodeModel| sl.contains(x) && #[trigger] reaches(r, x, n);
                assert(result.seeds@.contains(x));
            }
            if exists|x: NodeModel| result.seeds@.contains(x) && #[trigger] reaches(r, x, n) {
                let x = choose|x: NodeModel| result.seeds@.contains(x) && #[trigger] reaches(r, x, n);
                let k = choose|k: int| 0 <= k < sl.len() && sl[k] == x;
                assert(o.subrange(0, s)[k] == x);
                assert(o[k] == x);
                assert(o.to_set().contains(x));
                assert forall|a: NodeModel, b: NodeModel| reached@.contains(a) && #[trigger] r(a, b) implies reached@.contains(b) by {
                    assert(o.to_set().contains(a));
                    let q = choose|q: int| 0 <= q < o.len() && o[q] == a;
                    assert(r(o[q], b));
                }
                closed_holds_reached(r, reached@, x, n);
            }
        }
        assert(pairs::<Node, Node>(result.predecessors@) =~= Set::new(
            |e: Edge| result.reached@.contains(e.1) && r(e.1, e.0),
        )) by {
            assert forall|x: Edge|
                pred_pairs(r, o, head as int, Seq::empty()).contains(x) == (reached@.contains(x.1) && r(x.1, x.0)) by {
                if reached@.contains(x.1) && r(x.1, x.0) {
                    assert(o.to_set().contains(x.1));
                    let q = choose|q: int| 0 <= q < o.len() && o[q] == x.1;
                    assert(x.1 == o[q] && r(o[q], x.0));
                }
                if pred_pairs(r, o, head as int, Seq::empty()).contains(x) {
                    let q = choose|q: int| 0 <= q < head && x.1 == #[trigger] o[q] && r(o[q], x.0);
                    assert(o.contains(o[q]));
                    assert(o.to_set().contains(o[q]));
                }
            }
        }
        assert(is_breadth_first(r, result.seeds.list().len() as int, o, origin));
    }
    result
}

} // verus!
