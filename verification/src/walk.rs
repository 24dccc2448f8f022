//! Walks along a relation and the points they reach.
use vstd::prelude::*;

use crate::collections::KeySet;
use crate::collections::KeyMap;
use crate::order::{models, Key};

verus! {

/// Each two neighbours of `p` are related.
pub open spec fn is_walk<M>(r: spec_fn(M, M) -> bool, p: Seq<M>) -> bool {
    p.len() > 0 && forall|i: int|
        #![trigger p[i], p[i + 1]]
        0 <= i && i + 1 < p.len() ==> r(p[i], p[i + 1])
}

/// `p` is a walk from `a` to `b`.
pub open spec fn walk_between<M>(r: spec_fn(M, M) -> bool, p: Seq<M>, a: M, b: M) -> bool {
    is_walk(r, p) && p[0] == a && p.last() == b
}

/// Some walk, possibly of no steps, leads from `a` to `b`.
pub open spec fn reaches<M>(r: spec_fn(M, M) -> bool, a: M, b: M) -> bool {
    exists|p: Seq<M>| walk_between(r, p, a, b)
}

pub proof fn reaches_self<M>(r: spec_fn(M, M) -> bool, a: M)
    ensures
        reaches(r, a, a),
{
    assert(walk_between(r, seq![a], a, a));
}

pub proof fn reaches_step<M>(r: spec_fn(M, M) -> bool, a: M, b: M, c: M)
    requires
        reaches(r, a, b),
        r(b, c),
    ensures
        reaches(r, a, c),
{
    let p = choose|p: Seq<M>| walk_between(r, p, a, b);
    let q = p.push(c);
    assert(walk_between(r, q, a, c));
}

pub proof fn reaches_trans<M>(r: spec_fn(M, M) -> bool, a: M, b: M, c: M)
    requires
        reaches(r, a, b),
        reaches(r, b, c),
    ensures
        reaches(r, a, c),
{
    let p = choose|p: Seq<M>| walk_between(r, p, a, b);
    let q = choose|q: Seq<M>| walk_between(r, q, b, c);
    let w = p + q.skip(1);
    assert forall|i: int|
        #![trigger w[i], w[i + 1]]
        0 <= i && i + 1 < w.len() implies r(w[i], w[i + 1]) by {
        if i + 1 < p.len() {
            assert(w[i] == p[i] && w[i + 1] == p[i + 1]);
        } else {
            let k = i + 1 - p.len();
            assert(w[i + 1] == q[k + 1]);
            assert(w[i] == q[k]);
        }
    }
    assert(walk_between(r, w, a, c));
}

/// A set that holds `a` and is closed under the relation holds all that `a` reaches.
pub proof fn closed_holds_reached<M>(r: spec_fn(M, M) -> bool, closed: Set<M>, a: M, b: M)
    requires
        closed.contains(a),
        forall|x: M, y: M| closed.contains(x) && #[trigger] r(x, y) ==> closed.contains(y),
        reaches(r, a, b),
    ensures
        closed.contains(b),
{
    let p = choose|p: Seq<M>| walk_between(r, p, a, b);
    walk_stays(r, closed, p, p.len() - 1);
}

proof fn walk_stays<M>(r: spec_fn(M, M) -> bool, closed: Set<M>, p: Seq<M>, i: int)
    requires
        is_walk(r, p),
        closed.contains(p[0]),
        forall|x: M, y: M| closed.contains(x) && #[trigger] r(x, y) ==> closed.contains(y),
        0 <= i < p.len(),
    ensures
        closed.contains(p[i]),
    decreases i,
{
    if i > 0 {
        walk_stays(r, closed, p, i - 1);
        assert(r(p[i - 1], p[i - 1 + 1]));
    }
}

/// More related pairs reach at least as much.
pub proof fn reaches_monotone<M>(
    r: spec_fn(M, M) -> bool,
    s: spec_fn(M, M) -> bool,
    a: M,
    b: M,
)
    requires
        forall|x: M, y: M| #[trigger] r(x, y) ==> s(x, y),
        reaches(r, a, b),
    ensures
        reaches(s, a, b),
{
    let p = choose|p: Seq<M>| walk_between(r, p, a, b);
    assert(walk_between(s, p, a, b));
}

/// A walk turned round is a walk along the converse relation.
pub proof fn reaches_converse<M>(
    r: spec_fn(M, M) -> bool,
    s: spec_fn(M, M) -> bool,
    a: M,
    b: M,
)
    requires
        forall|x: M, y: M| #[trigger] r(x, y) ==> s(y, x),
        reaches(r, a, b),
    ensures
        reaches(s, b, a),
{
    let p = choose|p: Seq<M>| walk_between(r, p, a, b);
    let q = p.reverse();
    assert forall|i: int|
        #![trigger q[i], q[i + 1]]
        0 <= i && i + 1 < q.len() implies s(q[i], q[i + 1]) by {
        let k = p.len() - 2 - i;
        assert(q[i + 1] == p[k] && q[i] == p[k + 1]);
        assert(r(p[k], p[k + 1]));
    }
    assert(walk_between(s, q, b, a));
}

/// The relation that a map from points to sets of points lists.
pub open spec fn listed<T: Key>(graph: Map<T::M, KeySet<T>>) -> spec_fn(T::M, T::M) -> bool {
    |a: T::M, b: T::M| graph.dom().contains(a) && graph[a]@.contains(b)
}

/// Every point that a graph mentions.
pub open spec fn points<T: Key>(graph: Map<T::M, KeySet<T>>) -> Set<T::M> {
    Set::new(
        |m: T::M|
            graph.dom().contains(m) || exists|k: T::M|
                graph.dom().contains(k) && #[trigger] graph[k]@.contains(m),
    )
}

pub(crate) fn all_points<T: Key>(graph: &KeyMap<T, KeySet<T>>) -> (r: KeySet<T>)
    ensures
        r@ == points(graph@),
{
    let mut out: KeySet<T> = KeySet::new();
    let n = graph.len();
    let mut i: usize = 0;
    let ghost keys = graph.keys();
    while i < n
        invariant
            i <= n,
            n == keys.len(),
            keys == graph.keys(),
            graph@.dom() == keys.to_set(),
            forall|m: T::M|
                out@.contains(m) <==> exists|k: int|
                    0 <= k < i && (m == #[trigger] keys[k] || graph@[keys[k]]@.contains(m)),
        decreases n - i,
    {
        let ghost before = out@;
        out.insert(graph.key_at(i).dup());
        out.extend(graph.value_at(i));
        proof {
            assert forall|m: T::M|
                out@.contains(m) <==> exists|k: int|
                    0 <= k < i + 1 && (m == #[trigger] keys[k] || graph@[keys[k]]@.contains(m)) by {
                if out@.contains(m) && !before.contains(m) {
                    assert(m == keys[i as int] || graph@[keys[i as int]]@.contains(m));
                }
            }
        }
        i += 1;
    }
    proof {
        assert forall|m: T::M| out@.contains(m) == points(graph@).contains(m) by {
            if graph@.dom().contains(m) {
                let k = choose|k: int| 0 <= k < keys.len() && keys[k] == m;
                assert(m == keys[k]);
            }
            if exists|k: T::M| graph@.dom().contains(k) && #[trigger] graph@[k]@.contains(m) {
                let x = choose|x: T::M| graph@.dom().contains(x) && #[trigger] graph@[x]@.contains(m);
                let k = choose|k: int| 0 <= k < keys.len() && keys[k] == x;
                assert(graph@[keys[k]]@.contains(m));
            }
            if out@.contains(m) {
                let k = choose|k: int|
                    0 <= k < n && (m == #[trigger] keys[k] || graph@[keys[k]]@.contains(m));
                assert(keys.contains(keys[k]));
                assert(graph@.dom().contains(keys[k]));
            }
        }
        assert(out@ =~= points(graph@));
    }
    out
}

/// All that the members of `start` reach.
pub open spec fn reached_from<T: Key>(graph: Map<T::M, KeySet<T>>, start: Set<T::M>) -> Set<T::M> {
    Set::new(|m: T::M| exists|s: T::M| start.contains(s) && #[trigger] reaches(listed(graph), s, m))
}

/// Collects all that the members of `start` reach.
pub fn closure<T: Key>(graph: &KeyMap<T, KeySet<T>>, start: &KeySet<T>) -> (reached: KeySet<T>)
    ensures
        reached@ == reached_from(graph@, start@),
{
    let ghost r = listed(graph@);
    let points = all_points(graph);
    let ghost all = points@.union(start@);
    let mut reached = start.dup();
    let mut pending: Vec<T> = Vec::new();
    let n = start.len();
    let mut i: usize = 0;
    while i < n
        invariant
            i <= n,
            n == start.list().len(),
            models(pending@) =~= start.list().take(i as int),
        decreases n - i,
    {
        let ghost before = models(pending@);
        let item = start.at(i).dup();
        pending.push(item);
        assert(models(pending@) =~= before.push(item.model()));
        i += 1;
    }
    proof {
        points.is_finite();
        start.is_finite();
        assert(start.list().take(n as int) =~= start.list());
        assert forall|m: T::M| reached@.contains(m) implies reached_from(graph@, start@).contains(m) by {
            reaches_self(r, m);
        }
    }
    while pending.len() > 0
        invariant
            r == listed(graph@),
            points@ == crate::walk::points(graph@),
            all == points@.union(start@),
            all.finite(),
            start@.subset_of(reached@),
            reached@.subset_of(all),
            forall|m: T::M| #[trigger] reached@.contains(m) ==> reached_from(graph@, start@).contains(m),
            forall|k: int| 0 <= k < pending.len() ==> reached@.contains(#[trigger] models(pending@)[k]),
            forall|a: T::M, b: T::M|
                reached@.contains(a) && !models(pending@).contains(a) && #[trigger] r(a, b)
                    ==> reached@.contains(b),
        decreases all.difference(reached@).len(), pending.len(),
    {
        let ghost waiting = models(pending@);
        let at = pending.pop().unwrap();
        let ghost here = at.model();
        assert(waiting =~= models(pending@).push(here));
        assert(reached@.contains(waiting[waiting.len() - 1]));
        assert forall|k: int| 0 <= k < pending.len() implies reached@.contains(
            #[trigger] models(pending@)[k],
        ) by {
            assert(reached@.contains(waiting[k]));
        }
        let ghost measure = all.difference(reached@).len();
        let ghost size = pending.len();
        match graph.get(&at) {
            None => {
                proof {
                    assert forall|a: T::M, b: T::M|
                        reached@.contains(a) && !models(pending@).contains(a) && #[trigger] r(a, b) implies reached@.contains(
                    b) by {
                        if waiting.contains(a) {
                            let k = choose|k: int| 0 <= k < waiting.len() && waiting[k] == a;
                            if k < models(pending@).len() {
                                assert(models(pending@)[k] == a);
                            }
                        }
                    }
                }
            },
            Some(targets) => {
                let t = targets.len();
                let mut e: usize = 0;
                while e < t
                    invariant
                        e <= t,
                        t == targets.list().len(),
                        r == listed(graph@),
                        graph@.dom().contains(here),
                        graph@[here] == *targets,
                        points@ == crate::walk::points(graph@),
                        all == points@.union(start@),
                        all.finite(),
                        start@.subset_of(reached@),
                        reached@.subset_of(all),
                        reached@.contains(here),
                        forall|m: T::M| #[trigger] reached@.contains(m) ==> reached_from(graph@, start@).contains(m),
                        forall|k: int| 0 <= k < pending.len() ==> reached@.contains(#[trigger] models(pending@)[k]),
                        forall|a: T::M, b: T::M|
                            a != here && reached@.contains(a) && !models(pending@).contains(a) && #[trigger] r(a, b)
                                ==> reached@.contains(b),
                        forall|q: int| 0 <= q < e ==> reached@.contains(#[trigger] targets.list()[q]),
                        all.difference(reached@).len() < measure || (all.difference(reached@).len() == measure
                            && pending.len() == size),
                    decreases t - e,
                {
                    let to = targets.at(e);
                    let ghost m = to.model();
                    let ghost old_reached = reached@;
                    let ghost old_pending = models(pending@);
                    proof {
                        assert(r(here, m));
                        assert(points@.contains(m));
                    }
                    if reached.insert(to.dup()) {
                        let item = to.dup();
                        pending.push(item);
                        proof {
                            assert(models(pending@) =~= old_pending.push(m));
                            crate::collections::difference_shrinks(all, old_reached, m);
                            let s = choose|s: T::M| start@.contains(s) && #[trigger] reaches(r, s, here);
                            reaches_step(r, s, here, m);
                            assert(reached_from(graph@, start@).contains(m));
                            assert forall|a: T::M, b: T::M|
                                a != here && reached@.contains(a) && !models(pending@).contains(a) && #[trigger] r(a, b)
                                    implies reached@.contains(b) by {
                                assert(models(pending@)[old_pending.len() as int] == m);
                                if old_pending.contains(a) {
                                    let k = choose|k: int| 0 <= k < old_pending.len() && old_pending[k] == a;
                                    assert(models(pending@)[k] == a);
                                }
                                assert(old_reached.contains(a));
                            }
                            assert forall|k: int| 0 <= k < pending.len() implies reached@.contains(#[trigger] models(pending@)[k]) by {
                                if k < old_pending.len() {
                                    assert(models(pending@)[k] == old_pending[k]);
                                    assert(old_reached.contains(old_pending[k]));
                                }
                            }
                        }
                    } else {
                        assert(reached@ =~= old_reached);
                    }
                    e += 1;
                }
                proof {
                    assert forall|a: T::M, b: T::M|
                        reached@.contains(a) && !models(pending@).contains(a) && #[trigger] r(a, b) implies reached@.contains(
                    b) by {
                        if a == here {
                            let q = choose|q: int| 0 <= q < targets.list().len() && targets.list()[q] == b;
                            assert(reached@.contains(targets.list()[q]));
                        }
                    }
                }
            },
        }
    }
    proof {
        assert forall|m: T::M| reached_from(graph@, start@).contains(m) implies reached@.contains(m) by {
            let s = choose|s: T::M| start@.contains(s) && #[trigger] reaches(r, s, m);
            assert forall|x: T::M, y: T::M| reached@.contains(x) && #[trigger] r(x, y) implies reached@.contains(y) by {
                assert(!models(pending@).contains(x));
            }
            closed_holds_reached(r, reached@, s, m);
        }
        assert(reached@ =~= reached_from(graph@, start@));
    }
    reached
}

/// The relation of an adjacency list over `0..n`.
pub open spec fn adjacent(adj: Seq<Vec<usize>>) -> spec_fn(int, int) -> bool {
    |a: int, b: int|
        0 <= a < adj.len() && 0 <= b < adj.len() && adj[a]@.contains(b as usize)
}

pub open spec fn in_range(adj: Seq<Vec<usize>>) -> bool {
    forall|a: int, i: int|
        0 <= a < adj.len() && 0 <= i < adj[a]@.len() ==> #[trigger] adj[a]@[i] < adj.len()
}

/// How many entries are false.
spec fn unmarked(marks: Seq<bool>) -> nat
    decreases marks.len(),
{
    if marks.len() == 0 {
        0
    } else {
        unmarked(marks.drop_last()) + (if marks.last() {
            0nat
        } else {
            1nat
        })
    }
}

proof fn marking_lowers(marks: Seq<bool>, i: int)
    requires
        0 <= i < marks.len(),
        !marks[i],
    ensures
        unmarked(marks.update(i, true)) + 1 == unmarked(marks),
    decreases marks.len(),
{
    let next = marks.update(i, true);
    if i == marks.len() - 1 {
        assert(next.drop_last() =~= marks.drop_last());
    } else {
        assert(next.drop_last() =~= marks.drop_last().update(i, true));
        marking_lowers(marks.drop_last(), i);
    }
}

/// Marks what `start` reaches in an adjacency list.
pub fn mark_reached(adj: &Vec<Vec<usize>>, start: usize) -> (marks: Vec<bool>)
    requires
        start < adj.len(),
        in_range(adj@),
    ensures
        marks.len() == adj.len(),
        forall|i: int|
            0 <= i < adj.len() ==> (#[trigger] marks@[i] <==> reaches(
                adjacent(adj@),
                start as int,
                i,
            )),
{
    let n = adj.len();
    let ghost r = adjacent(adj@);
    let mut marks: Vec<bool> = Vec::new();
    let mut k: usize = 0;
    while k < n
        invariant
            k <= n,
            marks.len() == k,
            forall|i: int| 0 <= i < k ==> !#[trigger] marks@[i],
        decreases n - k,
    {
        marks.push(false);
        k += 1;
    }
    marks.set(start, true);
    let mut pending: Vec<usize> = Vec::new();
    pending.push(start);
    proof {
        reaches_self(r, start as int);
        assert(pending@[0] == start);
        assert forall|i: int| 0 <= i < n && marks@[i] implies pending@.contains(i as usize) by {
            assert(i == start);
        }
    }
    while pending.len() > 0
        invariant
            n == adj.len(),
            start < n,
            in_range(adj@),
            r == adjacent(adj@),
            marks.len() == n,
            marks@[start as int],
            forall|i: int| 0 <= i < n && #[trigger] marks@[i] ==> reaches(r, start as int, i),
            forall|k: int| 0 <= k < pending.len() ==> #[trigger] pending@[k] < n,
            forall|k: int| 0 <= k < pending.len() ==> marks@[#[trigger] pending@[k] as int],
            forall|i: int, j: int|
                0 <= i < n && marks@[i] && !pending@.contains(i as usize) && #[trigger] r(i, j)
                    ==> marks@[j],
        decreases unmarked(marks@), pending.len(),
    {
        let ghost waiting = pending@;
        let at = pending.pop().unwrap();
        assert(waiting.last() == at);
        assert(waiting =~= pending@.push(at));
        let mut e: usize = 0;
        let ghost measure = unmarked(marks@);
        let ghost size = pending.len();
        while e < adj[at as usize].len()
            invariant
                n == adj.len(),
                at < n,
                e <= adj@[at as int].len(),
                start < n,
                in_range(adj@),
                r == adjacent(adj@),
                marks.len() == n,
                marks@[start as int],
                marks@[at as int],
                forall|i: int| 0 <= i < n && #[trigger] marks@[i] ==> reaches(r, start as int, i),
                forall|k: int| 0 <= k < pending.len() ==> #[trigger] pending@[k] < n,
                forall|k: int| 0 <= k < pending.len() ==> marks@[#[trigger] pending@[k] as int],
                forall|i: int, j: int|
                    0 <= i < n && i != at && marks@[i] && !pending@.contains(i as usize)
                        && #[trigger] r(i, j) ==> marks@[j],
                forall|q: int| 0 <= q < e ==> marks@[#[trigger] adj@[at as int]@[q] as int],
                unmarked(marks@) < measure || (unmarked(marks@) == measure && pending.len() == size),
            decreases adj@[at as int].len() - e,
        {
            let to = adj[at][e];
            assert(adj@[at as int]@[e as int] == to);
            assert(to < n);
            proof {
                assert(adj@[at as int]@.contains(to));
                assert(r(at as int, to as int));
            }
            if !marks[to] {
                let ghost old_marks = marks@;
                let ghost old_pending = pending@;
                proof {
                    marking_lowers(marks@, to as int);
                    reaches_step(r, start as int, at as int, to as int);
                }
                marks.set(to, true);
                pending.push(to);
                proof {
                    assert forall|i: int, j: int|
                        0 <= i < n && i != at && marks@[i] && !pending@.contains(i as usize)
                            && #[trigger] r(i, j) implies marks@[j] by {
                        assert(pending@[pending@.len() - 1] == to);
                        assert(i != to);
                        assert(old_marks[i]);
                        if old_pending.contains(i as usize) {
                            let q = choose|q: int|
                                0 <= q < old_pending.len() && old_pending[q] == i as usize;
                            assert(pending@[q] == i as usize);
                        }
                        assert(old_marks[j]);
                    }
                }
            }
            e += 1;
        }
        proof {
            assert forall|i: int, j: int|
                0 <= i < n && marks@[i] && !pending@.contains(i as usize) && #[trigger] r(
                    i,
                    j,
                ) implies marks@[j] by {
                if i == at {
                    let q = choose|q: int|
                        0 <= q < adj@[at as int]@.len() && adj@[at as int]@[q] == j as usize;
                    assert(marks@[adj@[at as int]@[q] as int]);
                }
            }
        }
    }
    proof {
        let closed = Set::new(|i: int| 0 <= i < n && marks@[i]);
        assert forall|i: int| 0 <= i < n && reaches(r, start as int, i) implies #[trigger] marks@[i] by {
            assert forall|x: int, y: int| closed.contains(x) && #[trigger] r(x, y) implies closed.contains(
                y,
            ) by {
                assert(!pending@.contains(x as usize));
            }
            closed_holds_reached(r, closed, start as int, i);
        }
    }
    marks
}

} // verus!
