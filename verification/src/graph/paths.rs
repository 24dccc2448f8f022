//! Chains of dependencies from a change to what it affects.
use vstd::prelude::*;

use crate::collections::{pairs, KeySet};
use crate::graph::node::{Node, NodeModel};
use crate::graph::reach::{follows, found_from, is_breadth_first, Reachability};
use crate::graph::routes::traces_exist;
use crate::order::{models, Key};
use crate::walk::{reaches, walk_between};

verus! {

impl Reachability {
    /// `path` leads from the seed of `target` to `target`, each node being the one from which
    /// the next was first reached.
    pub open spec fn is_trace(self, path: Seq<NodeModel>, target: NodeModel) -> bool {
        &&& path.len() > 0
        &&& path.last() == target
        &&& path[0] == self.seed_for@[target]@
        &&& forall|i: int|
            1 <= i < path.len() ==> #[trigger] path[i] != path[0] && self.previous@.dom().contains(
                path[i],
            ) && self.previous@[path[i]]@ == path[i - 1]
    }

    /// The chain of `previous` from `target` ends at its seed.
    pub open spec fn has_trace(self, target: NodeModel) -> bool {
        self.seed_for@.dom().contains(target) && exists|path: Seq<NodeModel>|
            self.is_trace(path, target)
    }

    /// Every reached node has a chain to its seed.
    pub open spec fn has_chains(self) -> bool {
        forall|n: NodeModel| #[trigger] self.reached@.contains(n) ==> self.has_trace(n)
    }
}

/// What an exploration found has a chain to every reached node.
pub proof fn explored_has_chains(reach: Reachability, r: spec_fn(NodeModel, NodeModel) -> bool)
    requires
        reach.explores(r),
    ensures
        reach.has_chains(),
{
    assert forall|n: NodeModel| #[trigger] reach.reached@.contains(n) implies reach.has_trace(n) by {
        traces_exist(reach, r, n);
    }
}

/// The chain to a node that a change reaches is a walk from a changed node, along consumers.
pub proof fn traces_are_walks(
    reach: Reachability,
    r: spec_fn(NodeModel, NodeModel) -> bool,
    path: Seq<NodeModel>,
    target: NodeModel,
)
    requires
        reach.explores(r),
        reach.reached@.contains(target),
        reach.is_trace(path, target),
    ensures
        reach.seeds@.contains(path[0]),
        walk_between(r, path, path[0], target),
{
    let s = reach.seeds.list().len() as int;
    let (order, origin) = choose|order: Seq<NodeModel>, origin: Seq<int>|
        {
            &&& reach.seeds.list().is_prefix_of(order)
            &&& order.to_set() == reach.reached@
            &&& #[trigger] is_breadth_first(r, s, order, origin)
            &&& follows(s, order, origin, reach.previous@, reach.seed_for@)
        };
    assert forall|i: int|
        #![trigger path[i], path[i + 1]]
        0 <= i && i + 1 < path.len() implies r(path[i], path[i + 1]) by {
        let n = path[i + 1];
        assert(reach.previous@.dom().contains(n));
        assert(order.to_set().contains(n));
        let p = choose|p: int| 0 <= p < order.len() && order[p] == n;
        assert(reach.previous@.dom().contains(order[p]) == (p >= s));
        assert(found_from(r, order, p, origin[p]));
        assert(reach.previous@[order[p]]@ == order[origin[p]]);
    }
    assert(order.to_set().contains(target));
    let p = choose|p: int| 0 <= p < order.len() && order[p] == target;
    seed_of_place(reach, r, order, origin, p);
}

proof fn seed_of_place(
    reach: Reachability,
    r: spec_fn(NodeModel, NodeModel) -> bool,
    order: Seq<NodeModel>,
    origin: Seq<int>,
    p: int,
)
    requires
        reach.seeds.list().is_prefix_of(order),
        is_breadth_first(r, reach.seeds.list().len() as int, order, origin),
        follows(
            reach.seeds.list().len() as int,
            order,
            origin,
            reach.previous@,
            reach.seed_for@,
        ),
        0 <= p < order.len(),
    ensures
        reach.seeds@.contains(reach.seed_for@[order[p]]@),
    decreases p,
{
    let list = reach.seeds.list();
    let s = list.len() as int;
    if p < s {
        assert(order.subrange(0, s)[p] == order[p]);
        assert(list[p] == order[p]);
        assert(list.contains(order[p]));
    } else {
        assert(found_from(r, order, p, origin[p]));
        seed_of_place(reach, r, order, origin, origin[p]);
    }
}

/// A chain comes to no node twice.
proof fn traces_repeat_nothing(reach: Reachability, path: Seq<NodeModel>, target: NodeModel)
    requires
        reach.is_trace(path, target),
    ensures
        path.no_duplicates(),
{
    assert forall|i: int, j: int| 0 <= i < j < path.len() implies path[i] != path[j] by {
        trace_nodes_differ(reach, path, target, i, j);
    }
}

proof fn trace_nodes_differ(
    reach: Reachability,
    path: Seq<NodeModel>,
    target: NodeModel,
    i: int,
    j: int,
)
    requires
        reach.is_trace(path, target),
        0 <= i < j < path.len(),
    ensures
        path[i] != path[j],
    decreases i,
{
    assert(path[j] != path[0] && reach.previous@[path[j]]@ == path[j - 1]);
    if i > 0 {
        assert(reach.previous@[path[i]]@ == path[i - 1]);
        trace_nodes_differ(reach, path, target, i - 1, j - 1);
    }
}

/// A chain has at most one node more than there are nodes with a previous one.
proof fn traces_are_short(
    reach: Reachability,
    path: Seq<NodeModel>,
    target: NodeModel,
    keys: Seq<NodeModel>,
)
    requires
        reach.is_trace(path, target),
        reach.previous@.dom() == keys.to_set(),
    ensures
        path.len() <= keys.len() + 1,
{
    traces_repeat_nothing(reach, path, target);
    let tail = path.skip(1);
    assert(tail.no_duplicates()) by {
        assert forall|i: int, j: int| 0 <= i < j < tail.len() implies tail[i] != tail[j] by {
            assert(tail[i] == path[i + 1] && tail[j] == path[j + 1]);
        }
    }
    assert(tail.to_set().subset_of(keys.to_set())) by {
        assert forall|n: NodeModel| tail.to_set().contains(n) implies keys.to_set().contains(n) by {
            let i = choose|i: int| 0 <= i < tail.len() && tail[i] == n;
            assert(path[i + 1] == n);
            assert(reach.previous@.dom().contains(path[i + 1]));
        }
    }
    vstd::seq_lib::seq_to_set_is_finite(keys);
    tail.unique_seq_to_set();
    vstd::set_lib::lemma_len_subset(tail.to_set(), keys.to_set());
    keys.lemma_cardinality_of_set();
}

/// `back` follows `previous` from `target` without coming to `seed` before its end.
spec fn follows_back(
    reach: Reachability,
    back: Seq<NodeModel>,
    target: NodeModel,
    seed: NodeModel,
) -> bool {
    &&& back.len() > 0
    &&& back[0] == target
    &&& forall|i: int|
        #![trigger back[i]]
        0 <= i && i + 1 < back.len() ==> back[i] != seed && reach.previous@.dom().contains(back[i])
            && reach.previous@[back[i]]@ == back[i + 1]
}

/// A chain to the seed of `target` starts, seen from its end, as any way back does.
proof fn ways_back_agree(
    reach: Reachability,
    back: Seq<NodeModel>,
    path: Seq<NodeModel>,
    target: NodeModel,
    k: int,
)
    requires
        reach.is_trace(path, target),
        follows_back(reach, back, target, reach.seed_for@[target]@),
        0 <= k < back.len(),
    ensures
        k < path.len(),
        path[path.len() - 1 - k] == back[k],
    decreases k,
{
    if k > 0 {
        ways_back_agree(reach, back, path, target, k - 1);
        let i = path.len() - k;
        assert(back[k - 1] != path[0]);
        assert(path[i] == back[k - 1]);
        assert(i != 0);
        assert(reach.previous@[path[i]]@ == path[i - 1]);
    }
}

/// Follows `previous` back from `target` to its seed; gives nothing where the way breaks off or
/// never comes to the seed.
pub fn path_to(reach: &Reachability, target: &Node) -> (r: Option<Vec<Node>>)
    ensures
        match r {
            Some(path) => reach.seed_for@.dom().contains(target@) && reach.is_trace(
                models(path@),
                target@,
            ),
            None => !reach.has_trace(target@),
        },
{
    let seed = match reach.seed_for.get(target) {
        Some(seed) => seed,
        None => {
            return None;
        },
    };
    let most = reach.previous.len();
    let ghost keys = reach.previous.keys();
    let mut steps: usize = 0;
    let mut back: Vec<Node> = Vec::new();
    let mut current = target.dup();
    back.push(target.dup());
    assert(models(back@) =~= seq![target@]);
    while !current.same_as(seed)
        invariant
            reach.seed_for@.dom().contains(target@),
            seed@ == reach.seed_for@[target@]@,
            most == keys.len(),
            reach.previous@.dom() == keys.to_set(),
            steps <= most,
            back.len() == steps + 1,
            models(back@).last() == current@,
            follows_back(*reach, models(back@), target@, seed@),
        decreases most - steps,
    {
        let ghost before = models(back@);
        let next = match reach.previous.get(&current) {
            Some(next) => next.dup(),
            None => {
                proof {
                    assert forall|p: Seq<NodeModel>| !reach.is_trace(p, target@) by {
                        if reach.is_trace(p, target@) {
                            ways_back_agree(*reach, before, p, target@, before.len() - 1);
                            assert(p[p.len() - before.len()] == current@);
                        }
                    }
                }
                return None;
            },
        };
        if steps == most {
            proof {
                assert forall|p: Seq<NodeModel>| !reach.is_trace(p, target@) by {
                    if reach.is_trace(p, target@) {
                        ways_back_agree(*reach, before, p, target@, before.len() - 1);
                        assert(p[p.len() - before.len()] == current@);
                        traces_are_short(*reach, p, target@, keys);
                    }
                }
            }
            return None;
        }
        back.push(next.dup());
        steps += 1;
        proof {
            let after = models(back@);
            assert(after =~= before.push(next@));
            assert forall|i: int|
                #![trigger after[i]]
                0 <= i && i + 1 < after.len() implies after[i] != seed@
                && reach.previous@.dom().contains(after[i]) && reach.previous@[after[i]]@ == after[i + 1] by {
                assert(after[i] == before[i]);
                if i + 1 < before.len() {
                    assert(after[i + 1] == before[i + 1]);
                }
            }
        }
        current = next;
    }
    let ghost b = models(back@);
    let mut path: Vec<Node> = Vec::new();
    let mut k: usize = back.len();
    while k > 0
        invariant
            k <= back.len(),
            b == models(back@),
            path.len() == back.len() - k,
            forall|i: int| 0 <= i < path.len() ==> #[trigger] models(path@)[i] == b[b.len() - 1 - i],
        decreases k,
    {
        k -= 1;
        let ghost before = models(path@);
        let item = back[k].dup();
        path.push(item);
        assert(models(path@) =~= before.push(item@));
    }
    proof {
        let p = models(path@);
        assert forall|i: int| 1 <= i < p.len() implies #[trigger] p[i] != p[0]
            && reach.previous@.dom().contains(p[i]) && reach.previous@[p[i]]@ == p[i - 1] by {
            let j = b.len() - 1 - i;
            assert(p[i] == b[j]);
            assert(p[i - 1] == b[j + 1]);
            assert(p[0] == b[b.len() - 1]);
        }
        assert(p.last() == b[0]);
    }
    Some(path)
}

/// The ways to make `back` one node longer, in the order of `list`, without coming to a node
/// twice.
pub open spec fn longer_by(back: Seq<NodeModel>, list: Seq<NodeModel>, n: int) -> Seq<
    Seq<NodeModel>,
>
    decreases n,
{
    if n <= 0 {
        Seq::empty()
    } else if back.contains(list[n - 1]) {
        longer_by(back, list, n - 1)
    } else {
        longer_by(back, list, n - 1).push(back.push(list[n - 1]))
    }
}

/// The nodes from which `n` is reached, in ascending order.
pub open spec fn predecessors_of(reach: Reachability, n: NodeModel) -> Seq<NodeModel> {
    if reach.predecessors@.dom().contains(n) {
        reach.predecessors@[n].list()
    } else {
        Seq::empty()
    }
}

/// The paths after looking at no more than `steps` of the chains that wait in `pending`, written
/// from their end. A chain that has come to a seed is a path; another is made longer by each of
/// the nodes from which its last one is reached.
pub open spec fn searched(
    reach: Reachability,
    limit: nat,
    pending: Seq<Seq<NodeModel>>,
    paths: Seq<Seq<NodeModel>>,
    steps: nat,
) -> Seq<Seq<NodeModel>>
    decreases steps,
{
    if steps == 0 || pending.len() == 0 {
        paths
    } else {
        let back = pending[0];
        let rest = pending.skip(1);
        if reach.seeds@.contains(back.last()) {
            let path = back.reverse();
            let more = if paths.contains(path) {
                paths
            } else {
                paths.push(path)
            };
            if more.len() == limit {
                more
            } else {
                searched(reach, limit, rest, more, (steps - 1) as nat)
            }
        } else {
            let list = predecessors_of(reach, back.last());
            searched(
                reach,
                limit,
                rest + longer_by(back, list, list.len() as int),
                paths,
                (steps - 1) as nat,
            )
        }
    }
}

/// How many chains are looked at when `limit` paths are wanted.
pub open spec fn search_budget(limit: usize) -> nat {
    let wanted = limit * 10_000;
    if wanted > usize::MAX {
        usize::MAX as nat
    } else if wanted < 10_000 {
        10_000
    } else {
        wanted as nat
    }
}

/// The paths to `target`, `primary` being the one that was explored first.
pub open spec fn paths_of(
    reach: Reachability,
    primary: Seq<NodeModel>,
    target: NodeModel,
    limit: usize,
) -> Seq<Seq<NodeModel>> {
    if limit == 1 {
        seq![primary]
    } else {
        searched(
            reach,
            limit as nat,
            seq![seq![target]],
            seq![primary],
            search_budget(limit),
        )
    }
}

/// The paths to `target`: none where it is not reached or its chain does not lead to a seed, else
/// the chain along which it was first reached and up to `limit - 1` others.
pub open spec fn reason_paths(reach: Reachability, target: NodeModel, limit: usize) -> Seq<
    Seq<NodeModel>,
> {
    if limit == 0 || !reach.reached@.contains(target) || !reach.has_trace(target) {
        Seq::empty()
    } else {
        paths_of(
            reach,
            choose|primary: Seq<NodeModel>| reach.is_trace(primary, target),
            target,
            limit,
        )
    }
}

/// There is one chain along which a node was first reached.
pub proof fn traces_are_unique(
    reach: Reachability,
    a: Seq<NodeModel>,
    b: Seq<NodeModel>,
    target: NodeModel,
)
    requires
        reach.is_trace(a, target),
        reach.is_trace(b, target),
    ensures
        a == b,
{
    let n = if a.len() <= b.len() {
        a.len() as int
    } else {
        b.len() as int
    };
    trace_ends_agree(reach, a, b, target, n - 1);
    if a.len() < b.len() {
        assert(b[b.len() - n] == a[0]);
        assert(b[b.len() - n] != b[0]);
    } else if b.len() < a.len() {
        assert(a[a.len() - n] == b[0]);
        assert(a[a.len() - n] != a[0]);
    }
    assert forall|i: int| 0 <= i < n implies a[i] == b[i] by {
        trace_ends_agree(reach, a, b, target, n - 1 - i);
    }
    assert(a =~= b);
}

proof fn trace_ends_agree(
    reach: Reachability,
    a: Seq<NodeModel>,
    b: Seq<NodeModel>,
    target: NodeModel,
    k: int,
)
    requires
        reach.is_trace(a, target),
        reach.is_trace(b, target),
        0 <= k < a.len(),
        k < b.len(),
    ensures
        a[a.len() - 1 - k] == b[b.len() - 1 - k],
    decreases k,
{
    if k > 0 {
        trace_ends_agree(reach, a, b, target, k - 1);
        let i = a.len() - k;
        let j = b.len() - k;
        assert(reach.previous@[a[i]]@ == a[i - 1]);
        assert(reach.previous@[b[j]]@ == b[j - 1]);
    }
}

pub open spec fn path_models(paths: Seq<Vec<Node>>) -> Seq<Seq<NodeModel>> {
    models(paths)
}

fn same_path(a: &Vec<Node>, b: &Vec<Node>) -> (r: bool)
    ensures
        r == (models(a@) == models(b@)),
{
    proof {
        Vec::<Node>::order_laws(models(a@), models(b@), models(a@));
    }
    match a.rank(b) {
        crate::order::Rank::Same => true,
        _ => false,
    }
}

fn has_path(paths: &Vec<Vec<Node>>, path: &Vec<Node>) -> (r: bool)
    ensures
        r == models(paths@).contains(models(path@)),
{
    let mut i: usize = 0;
    while i < paths.len()
        invariant
            i <= paths.len(),
            forall|k: int| 0 <= k < i ==> #[trigger] models(paths@)[k] != models(path@),
        decreases paths.len() - i,
    {
        if same_path(&paths[i], path) {
            assert(models(paths@)[i as int] == models(path@));
            return true;
        }
        i += 1;
    }
    false
}

fn has_node(path: &Vec<Node>, node: &Node) -> (r: bool)
    ensures
        r == models(path@).contains(node@),
{
    let mut i: usize = 0;
    while i < path.len()
        invariant
            i <= path.len(),
            forall|k: int| 0 <= k < i ==> #[trigger] models(path@)[k] != node@,
        decreases path.len() - i,
    {
        if path[i].same_as(node) {
            assert(models(path@)[i as int] == node@);
            return true;
        }
        i += 1;
    }
    false
}

fn turned_round(path: &Vec<Node>) -> (r: Vec<Node>)
    ensures
        models(r@) == models(path@).reverse(),
{
    let mut out: Vec<Node> = Vec::new();
    let mut k: usize = path.len();
    let ghost p = models(path@);
    while k > 0
        invariant
            k <= path.len(),
            p == models(path@),
            out.len() == path.len() - k,
            forall|i: int| 0 <= i < out.len() ==> #[trigger] models(out@)[i] == p[p.len() - 1 - i],
        decreases k,
    {
        k -= 1;
        let ghost before = models(out@);
        let item = path[k].dup();
        out.push(item);
        assert(models(out@) =~= before.push(item@));
    }
    assert(models(out@) =~= p.reverse());
    out
}

fn push_longer(back: &Vec<Node>, list: &KeySet<Node>, queue: &mut Vec<Vec<Node>>)
    ensures
        models(final(queue)@) == models(old(queue)@) + longer_by(
            models(back@),
            list.list(),
            list.list().len() as int,
        ),
{
    let ghost start = models(queue@);
    let ghost b = models(back@);
    let ghost l = list.list();
    let n = list.len();
    let mut i: usize = 0;
    assert(models(queue@) =~= start + longer_by(b, l, 0));
    while i < n
        invariant
            i <= n,
            n == l.len(),
            l == list.list(),
            b == models(back@),
            models(queue@) == start + longer_by(b, l, i as int),
        decreases n - i,
    {
        let predecessor = list.at(i);
        if !has_node(back, predecessor) {
            let mut next = back.dup();
            let ghost before = models(next@);
            next.push(predecessor.dup());
            assert(models(next@) =~= before.push(l[i as int]));
            let ghost waiting = models(queue@);
            let ghost added = models(next@);
            queue.push(next);
            assert(models(queue@) =~= waiting.push(added));
            assert(models(queue@) =~= start + longer_by(b, l, i + 1));
        }
        i += 1;
    }
}

fn budget_for(limit: usize) -> (r: usize)
    ensures
        r == search_budget(limit),
{
    if limit == 0 {
        10_000
    } else if limit > usize::MAX / 10_000 {
        assert(limit * 10_000 > usize::MAX);
        usize::MAX
    } else {
        assert(limit * 10_000 <= usize::MAX);
        limit * 10_000
    }
}

/// Finds up to `limit` different paths from changed nodes to `target`.
pub fn paths_to(reach: &Reachability, target: &Node, limit: usize) -> (r: Vec<Vec<Node>>)
    ensures
        path_models(r@) == reason_paths(*reach, target@, limit),
{
    let mut paths: Vec<Vec<Node>> = Vec::new();
    assert(models(paths@) =~= Seq::empty());
    if limit == 0 || !reach.reached.contains(target) {
        return paths;
    }
    let primary = match path_to(reach, target) {
        Some(primary) => primary,
        None => {
            return paths;
        },
    };
    let ghost first = models(primary@);
    proof {
        assert(reach.is_trace(first, target@));
        traces_are_unique(
            *reach,
            first,
            choose|primary: Seq<NodeModel>| reach.is_trace(primary, target@),
            target@,
        );
    }
    let ghost goal = reason_paths(*reach, target@, limit);
    assert(goal == paths_of(*reach, first, target@, limit));
    paths.push(primary);
    assert(models(paths@) =~= seq![first]);
    if limit == 1 {
        return paths;
    }
    let mut queue: Vec<Vec<Node>> = Vec::new();
    let mut start: Vec<Node> = Vec::new();
    start.push(target.dup());
    assert(models(start@) =~= seq![target@]);
    queue.push(start);
    assert(models(queue@) =~= seq![seq![target@]]);
    let mut head: usize = 0;
    let mut left: usize = budget_for(limit);
    assert(models(queue@).skip(0) =~= models(queue@));
    while head < queue.len() && left > 0
        invariant
            head <= queue.len(),
            limit > 1,
            reach.is_trace(first, target@),
            goal == reason_paths(*reach, target@, limit),
            goal == searched(
                *reach,
                limit as nat,
                models(queue@).skip(head as int),
                models(paths@),
                left as nat,
            ),
            reach.reached@.contains(target@),
            reach.seed_for@.dom().contains(target@),
            forall|k: int| 0 <= k < queue.len() ==> (#[trigger] models(queue@)[k]).len() > 0,
        decreases left,
    {
        let ghost pending = models(queue@).skip(head as int);
        let back = queue[head].dup();
        let ghost b = models(back@);
        assert(pending[0] == b);
        let ghost rest = models(queue@).skip(head + 1);
        assert(pending.skip(1) =~= rest);
        head += 1;
        left -= 1;
        assert(models(queue@)[head - 1].len() > 0);
        let current = back[back.len() - 1].dup();
        assert(current@ == b.last());
        if reach.seeds.contains(&current) {
            let path = turned_round(&back);
            let ghost turned = models(path@);
            if !has_path(&paths, &path) {
                let ghost before = models(paths@);
                paths.push(path);
                assert(models(paths@) =~= before.push(turned));
            }
            if paths.len() == limit {
                assert(path_models(paths@) == goal);
                return paths;
            }
        } else {
            match reach.predecessors.get(&current) {
                Some(list) => {
                    let ghost waiting = models(queue@);
                    let ghost l = list.list();
                    push_longer(&back, list, &mut queue);
                    proof {
                        let more = longer_by(b, l, l.len() as int);
                        assert(models(queue@).skip(head as int) =~= rest + more);
                        longer_is_not_empty(b, l, l.len() as int);
                        assert forall|k: int| 0 <= k < queue.len() implies (#[trigger] models(
                            queue@,
                        )[k]).len() > 0 by {
                            if k < waiting.len() {
                                assert(models(queue@)[k] == waiting[k]);
                            } else {
                                assert(models(queue@)[k] == more[k - waiting.len()]);
                            }
                        }
                    }
                },
                None => {
                    assert(rest + longer_by(b, Seq::empty(), 0) =~= rest);
                },
            }
        }
    }
    assert(path_models(paths@) == goal);
    paths
}

proof fn longer_is_not_empty(back: Seq<NodeModel>, list: Seq<NodeModel>, n: int)
    ensures
        forall|k: int|
            0 <= k < longer_by(back, list, n).len() ==> (#[trigger] longer_by(back, list, n)[k]).len() > 0,
    decreases n,
{
    if n > 0 {
        longer_is_not_empty(back, list, n - 1);
        let shorter = longer_by(back, list, n - 1);
        let all = longer_by(back, list, n);
        assert forall|k: int| 0 <= k < all.len() implies (#[trigger] all[k]).len() > 0 by {
            if k < shorter.len() {
                assert(all[k] == shorter[k]);
            }
        }
    }
}

/// `path` leads from a changed node to `target`, each node being reached from the one in front
/// of it.
pub open spec fn is_impact_path(reach: Reachability, path: Seq<NodeModel>, target: NodeModel) -> bool {
    &&& path.len() > 0
    &&& path.last() == target
    &&& reach.seeds@.contains(path[0])
    &&& forall|i: int|
        #![trigger path[i], path[i + 1]]
        0 <= i && i + 1 < path.len() ==> pairs::<Node, Node>(reach.predecessors@).contains(
            (path[i + 1], path[i]),
        )
}

/// A chain written from its end: it starts at `target` and each node is reached from the next.
spec fn is_back(reach: Reachability, back: Seq<NodeModel>, target: NodeModel) -> bool {
    &&& back.len() > 0
    &&& back[0] == target
    &&& forall|i: int|
        #![trigger back[i], back[i + 1]]
        0 <= i && i + 1 < back.len() ==> pairs::<Node, Node>(reach.predecessors@).contains(
            (back[i], back[i + 1]),
        )
}

proof fn longer_is_back(
    reach: Reachability,
    back: Seq<NodeModel>,
    target: NodeModel,
    n: int,
)
    requires
        is_back(reach, back, target),
        0 <= n <= predecessors_of(reach, back.last()).len(),
    ensures
        forall|k: int|
            0 <= k < longer_by(back, predecessors_of(reach, back.last()), n).len() ==> is_back(
                reach,
                #[trigger] longer_by(back, predecessors_of(reach, back.last()), n)[k],
                target,
            ),
    decreases n,
{
    let list = predecessors_of(reach, back.last());
    if n > 0 {
        longer_is_back(reach, back, target, n - 1);
        let shorter = longer_by(back, list, n - 1);
        let all = longer_by(back, list, n);
        assert forall|k: int| 0 <= k < all.len() implies is_back(reach, #[trigger] all[k], target) by {
            if k < shorter.len() {
                assert(all[k] == shorter[k]);
            } else {
                let next = back.push(list[n - 1]);
                assert(all[k] == next);
                assert(list.contains(list[n - 1]));
                assert(reach.predecessors@[back.last()]@.contains(list[n - 1]));
                assert forall|i: int|
                    #![trigger next[i], next[i + 1]]
                    0 <= i && i + 1 < next.len() implies pairs::<Node, Node>(
                    reach.predecessors@,
                ).contains((next[i], next[i + 1])) by {
                    if i + 1 < back.len() {
                        assert(next[i] == back[i] && next[i + 1] == back[i + 1]);
                    }
                }
            }
        }
    }
}

/// What a search keeps: the paths are impact paths, no two are the same and there are at most
/// `limit`; the paths it started with stay in front.
proof fn search_keeps(
    reach: Reachability,
    target: NodeModel,
    limit: nat,
    pending: Seq<Seq<NodeModel>>,
    paths: Seq<Seq<NodeModel>>,
    steps: nat,
)
    requires
        forall|k: int| 0 <= k < pending.len() ==> is_back(reach, #[trigger] pending[k], target),
        forall|k: int| 0 <= k < paths.len() ==> is_impact_path(reach, #[trigger] paths[k], target),
        paths.no_duplicates(),
        paths.len() < limit,
    ensures
        ({
            let found = searched(reach, limit, pending, paths, steps);
            &&& forall|k: int|
                0 <= k < found.len() ==> is_impact_path(reach, #[trigger] found[k], target)
            &&& found.no_duplicates()
            &&& paths.len() <= found.len() <= limit
            &&& paths.is_prefix_of(found)
        }),
    decreases steps,
{
    assert(paths.subrange(0, paths.len() as int) =~= paths);
    if steps > 0 && pending.len() > 0 {
        let back = pending[0];
        let rest = pending.skip(1);
        assert(is_back(reach, pending[0], target));
        if reach.seeds@.contains(back.last()) {
            let path = back.reverse();
            assert forall|i: int|
                #![trigger path[i], path[i + 1]]
                0 <= i && i + 1 < path.len() implies pairs::<Node, Node>(reach.predecessors@).contains(
                (path[i + 1], path[i]),
            ) by {
                let j = back.len() - 2 - i;
                assert(path[i + 1] == back[j] && path[i] == back[j + 1]);
            }
            assert(path.last() == back[0]);
            assert(path[0] == back.last());
            assert(is_impact_path(reach, path, target));
            let more = if paths.contains(path) {
                paths
            } else {
                paths.push(path)
            };
            assert(more.no_duplicates()) by {
                if !paths.contains(path) {
                    assert forall|i: int, j: int|
                        0 <= i < more.len() && 0 <= j < more.len() && i != j implies more[i] != more[j] by {
                        if i < paths.len() && j < paths.len() {
                            assert(paths[i] != paths[j]);
                        } else if i < paths.len() {
                            assert(paths.contains(paths[i]));
                        } else {
                            assert(paths.contains(paths[j]));
                        }
                    }
                }
            }
            assert(more.subrange(0, paths.len() as int) =~= paths);
            if more.len() != limit {
                assert forall|k: int| 0 <= k < rest.len() implies is_back(reach, #[trigger] rest[k], target) by {
                    assert(rest[k] == pending[k + 1]);
                }
                search_keeps(reach, target, limit, rest, more, (steps - 1) as nat);
                let found = searched(reach, limit, rest, more, (steps - 1) as nat);
                assert(found.subrange(0, paths.len() as int) =~= paths) by {
                    assert(found.subrange(0, more.len() as int) =~= more);
                    assert forall|i: int| 0 <= i < paths.len() implies found[i] == paths[i] by {
                        assert(found.subrange(0, more.len() as int)[i] == more[i]);
                    }
                }
            }
        } else {
            let list = predecessors_of(reach, back.last());
            longer_is_back(reach, back, target, list.len() as int);
            let more = longer_by(back, list, list.len() as int);
            let next = rest + more;
            assert forall|k: int| 0 <= k < next.len() implies is_back(reach, #[trigger] next[k], target) by {
                if k < rest.len() {
                    assert(next[k] == pending[k + 1]);
                } else {
                    assert(next[k] == more[k - rest.len()]);
                }
            }
            search_keeps(reach, target, limit, next, paths, (steps - 1) as nat);
        }
    }
}

/// The paths to a reached node: the first is the chain of first reaches, all are impact paths, no
/// two are the same, and there are at most `limit` of them.
pub proof fn paths_are_impact_paths(
    reach: Reachability,
    r: spec_fn(NodeModel, NodeModel) -> bool,
    primary: Seq<NodeModel>,
    target: NodeModel,
    limit: usize,
)
    requires
        reach.explores(r),
        reach.reached@.contains(target),
        reach.is_trace(primary, target),
        limit > 0,
    ensures
        ({
            let found = paths_of(reach, primary, target, limit);
            &&& 1 <= found.len() <= limit
            &&& found[0] == primary
            &&& found.no_duplicates()
            &&& forall|k: int|
                0 <= k < found.len() ==> is_impact_path(reach, #[trigger] found[k], target)
        }),
{
    traces_are_walks(reach, r, primary, target);
    assert(is_impact_path(reach, primary, target)) by {
        assert forall|i: int|
            #![trigger primary[i], primary[i + 1]]
            0 <= i && i + 1 < primary.len() implies pairs::<Node, Node>(reach.predecessors@).contains(
            (primary[i + 1], primary[i]),
        ) by {
            assert(r(primary[i], primary[i + 1]));
            walk_prefix_reached(reach, r, primary, target, i);
        }
    }
    let start = seq![primary];
    if limit > 1 {
        let pending = seq![seq![target]];
        assert(is_back(reach, pending[0], target));
        search_keeps(reach, target, limit as nat, pending, start, search_budget(limit));
        let found = paths_of(reach, primary, target, limit);
        assert(found.subrange(0, 1)[0] == start[0]);
    }
}

/// The nodes of a walk from a changed node are reached.
proof fn walk_prefix_reached(
    reach: Reachability,
    r: spec_fn(NodeModel, NodeModel) -> bool,
    path: Seq<NodeModel>,
    target: NodeModel,
    i: int,
)
    requires
        reach.explores(r),
        walk_between(r, path, path[0], target),
        reach.seeds@.contains(path[0]),
        0 <= i < path.len(),
    ensures
        reach.reached@.contains(path[i]),
{
    let front = path.take(i + 1);
    assert forall|k: int|
        #![trigger front[k], front[k + 1]]
        0 <= k && k + 1 < front.len() implies r(front[k], front[k + 1]) by {
        assert(front[k] == path[k] && front[k + 1] == path[k + 1]);
    }
    assert(walk_between(r, front, path[0], path[i]));
    assert(reaches(r, path[0], path[i]));
}

} // verus!
