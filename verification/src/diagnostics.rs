//! Findings about a workspace, and the cycles of its dependency graphs.
use vstd::prelude::*;

use crate::collections::{ascending, ascending_is_distinct, ascending_is_unique, KeyMap, KeySet};
use crate::order::{key_order, lex_at, lex_precedes, models, rank_text, Key, Rank};
use crate::path::FilePath;
use crate::walk::{
    adjacent, all_points, in_range, listed, mark_reached, points, reaches, reaches_converse,
    reaches_self, reaches_trans, walk_between,
};

verus! {

#[derive(Clone, Copy, Debug, PartialEq, Eq, PartialOrd, Ord, Structural)]
pub enum Severity {
    Info,
    Warning,
    Error,
}

pub open spec fn severity_level(s: Severity) -> int {
    match s {
        Severity::Info => 0,
        Severity::Warning => 1,
        Severity::Error => 2,
    }
}

impl Key for Severity {
    type M = Severity;

    open spec fn model(&self) -> Severity {
        *self
    }

    open spec fn precedes(a: Severity, b: Severity) -> bool {
        severity_level(a) < severity_level(b)
    }

    proof fn order_laws(a: Severity, b: Severity, c: Severity) {
    }

    fn rank(&self, other: &Severity) -> (r: Rank) {
        match (*self, *other) {
            (Severity::Info, Severity::Info) => Rank::Same,
            (Severity::Info, _) => Rank::Before,
            (Severity::Warning, Severity::Info) => Rank::After,
            (Severity::Warning, Severity::Warning) => Rank::Same,
            (Severity::Warning, Severity::Error) => Rank::Before,
            (Severity::Error, Severity::Error) => Rank::Same,
            (Severity::Error, _) => Rank::After,
        }
    }

    fn dup(&self) -> (r: Severity) {
        *self
    }
}

/// One finding, with the file it is about and the files that take part in it.
pub struct Diagnostic {
    pub code: &'static str,
    pub severity: Severity,
    pub message: String,
    pub path: Option<FilePath>,
    pub members: Vec<FilePath>,
}

/// The order of the fields by which findings are sorted.
pub type DiagnosticFields = (
    String,
    (Severity, (String, (Option<FilePath>, Vec<FilePath>))),
);

impl Key for Diagnostic {
    type M = <DiagnosticFields as Key>::M;

    open spec fn model(&self) -> Self::M {
        (
            self.code@,
            (self.severity, (self.message@, (self.path.model(), self.members.model()))),
        )
    }

    open spec fn precedes(a: Self::M, b: Self::M) -> bool {
        DiagnosticFields::precedes(a, b)
    }

    proof fn order_laws(a: Self::M, b: Self::M, c: Self::M) {
        DiagnosticFields::order_laws(a, b, c);
    }

    fn rank(&self, other: &Diagnostic) -> (r: Rank) {
        match rank_text(self.code, other.code) {
            Rank::Same => match self.severity.rank(&other.severity) {
                Rank::Same => match self.message.rank(&other.message) {
                    Rank::Same => match self.path.rank(&other.path) {
                        Rank::Same => self.members.rank(&other.members),
                        unequal => unequal,
                    },
                    unequal => unequal,
                },
                unequal => unequal,
            },
            unequal => unequal,
        }
    }

    fn dup(&self) -> (r: Diagnostic) {
        Diagnostic {
            code: self.code,
            severity: self.severity,
            message: self.message.clone(),
            path: self.path.dup(),
            members: self.members.dup(),
        }
    }
}

/// `a` and `b` reach each other.
pub open spec fn mutual<T: Key>(graph: Map<T::M, KeySet<T>>, a: T::M, b: T::M) -> bool {
    reaches(listed(graph), a, b) && reaches(listed(graph), b, a)
}

/// `c` lists in ascending order all points that reach its first one and are reached from it, and
/// one can leave that point and come back to it.
pub open spec fn is_cycle_along<T: Key>(r: spec_fn(T::M, T::M) -> bool, c: Seq<T::M>) -> bool {
    &&& c.len() > 0
    &&& ascending::<T>(c)
    &&& forall|m: T::M|
        #[trigger] c.contains(m) <==> reaches(r, c[0], m) && reaches(r, m, c[0])
    &&& c.len() > 1 || r(c[0], c[0])
}

/// A cycle of a graph given as a map.
pub open spec fn is_cycle<T: Key>(graph: Map<T::M, KeySet<T>>, c: Seq<T::M>) -> bool {
    is_cycle_along::<T>(listed(graph), c)
}

/// Edges between the numbers of `names` and edges between the names themselves are the same.
spec fn mirrors<T: Key>(
    graph: Map<T::M, KeySet<T>>,
    names: Seq<T::M>,
    ra: spec_fn(int, int) -> bool,
) -> bool {
    &&& ascending::<T>(names)
    &&& names.to_set() == points(graph)
    &&& forall|i: int, j: int|
        #[trigger] ra(i, j) <==> 0 <= i < names.len() && 0 <= j < names.len() && listed(graph)(
            names[i],
            names[j],
        )
}

proof fn mirrored_walks<T: Key>(
    graph: Map<T::M, KeySet<T>>,
    names: Seq<T::M>,
    ra: spec_fn(int, int) -> bool,
    i: int,
    j: int,
)
    requires
        mirrors(graph, names, ra),
        0 <= i < names.len(),
        0 <= j < names.len(),
    ensures
        reaches(ra, i, j) <==> reaches(listed(graph), names[i], names[j]),
{
    let r = listed(graph);
    if reaches(ra, i, j) {
        let p = choose|p: Seq<int>| walk_between(ra, p, i, j);
        let q = p.map_values(|k: int| names[k]);
        assert forall|k: int|
            #![trigger q[k], q[k + 1]]
            0 <= k && k + 1 < q.len() implies r(q[k], q[k + 1]) by {
            assert(ra(p[k], p[k + 1]));
        }
        assert(walk_between(r, q, names[i], names[j]));
    }
    if reaches(r, names[i], names[j]) {
        let q = choose|q: Seq<T::M>| walk_between(r, q, names[i], names[j]);
        assert forall|k: int| 0 <= k < q.len() implies names.contains(#[trigger] q[k]) by {
            if k > 0 {
                assert(r(q[k - 1], q[k - 1 + 1]));
                assert(points(graph).contains(q[k]));
                assert(names.to_set().contains(q[k]));
            }
        }
        let p = Seq::new(
            q.len(),
            |k: int| if k == 0 { i } else { names.index_of(q[k]) },
        );
        assert forall|k: int| 0 <= k < p.len() implies 0 <= #[trigger] p[k] < names.len()
            && names[p[k]] == q[k] by {
            assert(names.contains(q[k]));
        }
        ascending_is_distinct::<T>(names, p.last(), j);
        assert forall|k: int|
            #![trigger p[k], p[k + 1]]
            0 <= k && k + 1 < p.len() implies ra(p[k], p[k + 1]) by {
            assert(r(q[k], q[k + 1]));
            assert(names[p[k]] == q[k] && names[p[k + 1]] == q[k + 1]);
        }
        assert(walk_between(ra, p, i, j));
    }
}

/// The graph as an adjacency list over the places of `names`, with the edges turned round where
/// `backward`.
fn numbered<T: Key>(graph: &KeyMap<T, KeySet<T>>, names: &KeySet<T>, backward: bool) -> (adj: Vec<
    Vec<usize>,
>)
    requires
        names@ == points(graph@),
    ensures
        in_range(adj@),
        adj.len() == names.list().len(),
        !backward ==> mirrors(graph@, names.list(), adjacent(adj@)),
        backward ==> mirrors(graph@, names.list(), |a: int, b: int| adjacent(adj@)(b, a)),
{
    let n = names.len();
    let ghost list = names.list();
    let mut adj: Vec<Vec<usize>> = Vec::new();
    let mut i: usize = 0;
    while i < n
        invariant
            i <= n,
            adj.len() == i,
            forall|k: int| 0 <= k < i ==> (#[trigger] adj@[k])@.len() == 0,
        decreases n - i,
    {
        adj.push(Vec::new());
        i += 1;
    }
    let ghost edge = |a: int, b: int|
        if backward {
            listed(graph@)(list[b], list[a])
        } else {
            listed(graph@)(list[a], list[b])
        };
    let mut k: usize = 0;
    let m = graph.len();
    let ghost keys = graph.keys();
    while k < m
        invariant
            k <= m,
            m == keys.len(),
            keys == graph.keys(),
            ascending::<T>(keys),
            graph@.dom() == keys.to_set(),
            names@ == points(graph@),
            list == names.list(),
            ascending::<T>(list),
            n == list.len(),
            adj.len() == n,
            in_range(adj@),
            forall|a: int, b: int|
                0 <= a < n && 0 <= b < n ==> (#[trigger] adj@[a]@.contains(b as usize) <==> exists|q: int|
                    0 <= q < k && #[trigger] keys[q] == (if backward { list[b] } else { list[a] })
                        && graph@[keys[q]]@.contains(if backward { list[a] } else { list[b] })),
        decreases m - k,
    {
        let key = graph.key_at(k);
        let targets = graph.value_at(k);
        assert(names@.contains(key.model()));
        let from = names.position(key).unwrap();
        let t = targets.len();
        let mut e: usize = 0;
        let ghost before = adj@;
        while e < t
            invariant
                e <= t,
                k < m,
                m == keys.len(),
                keys == graph.keys(),
                *targets == graph@[keys[k as int]],
                graph@.dom().contains(keys[k as int]),
                t == targets.list().len(),
                names@ == points(graph@),
                list == names.list(),
                ascending::<T>(list),
                n == list.len(),
                adj.len() == n,
                from < n,
                list[from as int] == keys[k as int],
                in_range(adj@),
                before.len() == n,
                forall|a: int, b: int|
                    0 <= a < n && 0 <= b < n ==> (#[trigger] adj@[a]@.contains(b as usize) <==> before[a]@.contains(b as usize)
                        || (if backward { b == from } else { a == from }) && exists|q: int|
                            0 <= q < e && #[trigger] targets.list()[q] == (if backward { list[a] } else { list[b] })),
            decreases t - e,
        {
            let target = targets.at(e);
            proof {
                assert(graph@[keys[k as int]]@.contains(target.model()));
                assert(points(graph@).contains(target.model()));
            }
            let to = names.position(target).unwrap();
            let ghost prior = adj@;
            let (row, value): (usize, usize) = if backward {
                (to, from)
            } else {
                (from, to)
            };
            adj[row].push(value);
            proof {
                assert(adj@ == prior.update(row as int, adj@[row as int]));
                assert(adj@[row as int]@ == prior[row as int]@.push(value));
                assert forall|a: int, b: int| 0 <= a < n && 0 <= b < n implies (
                #[trigger] adj@[a]@.contains(b as usize) <==> before[a]@.contains(b as usize)
                    || (if backward { b == from } else { a == from }) && exists|q: int|
                    0 <= q < e + 1 && #[trigger] targets.list()[q] == (if backward { list[a] } else { list[b] })) by {
                    let goal = if backward { list[a] } else { list[b] };
                    if a == row {
                        let old_row = prior[a]@;
                        let new_row = adj@[a]@;
                        assert(new_row[old_row.len() as int] == value);
                        if old_row.contains(b as usize) {
                            let z = choose|z: int| 0 <= z < old_row.len() && old_row[z] == b as usize;
                            assert(new_row[z] == b as usize);
                        }
                        if new_row.contains(b as usize) && b as usize != value {
                            let z = choose|z: int| 0 <= z < new_row.len() && new_row[z] == b as usize;
                            assert(old_row[z] == b as usize);
                        }
                    }
                    if (if backward { b == from } else { a == from }) && targets.list()[e as int] == goal {
                        let other = if backward { a } else { b };
                        ascending_is_distinct::<T>(list, to as int, other);
                    }
                }
                assert forall|a: int, z: int| 0 <= a < adj@.len() && 0 <= z < adj@[a]@.len() implies
                    #[trigger] adj@[a]@[z] < adj@.len() by {
                    if a == row && z < prior[a]@.len() {
                        assert(prior[a]@[z] < prior.len());
                    } else if a != row {
                        assert(prior[a]@[z] < prior.len());
                    }
                }
            }
            e += 1;
        }
        proof {
            assert forall|a: int, b: int| 0 <= a < n && 0 <= b < n implies (
            #[trigger] adj@[a]@.contains(b as usize) <==> exists|q: int|
                0 <= q < k + 1 && #[trigger] keys[q] == (if backward { list[b] } else { list[a] })
                    && graph@[keys[q]]@.contains(if backward { list[a] } else { list[b] })) by {
                let source = if backward { b } else { a };
                let goal = if backward { list[a] } else { list[b] };
                if source == from && targets@.contains(goal) {
                    assert(targets.list().contains(goal));
                }
                if list[source] == keys[k as int] {
                    ascending_is_distinct::<T>(list, source, from as int);
                }
                if exists|q: int| 0 <= q < t && #[trigger] targets.list()[q] == goal {
                    let q = choose|q: int| 0 <= q < t && #[trigger] targets.list()[q] == goal;
                    assert(targets.list().contains(goal));
                }
            }
        }
        k += 1;
    }
    proof {
        let r = adjacent(adj@);
        let ra = if backward { |a: int, b: int| r(b, a) } else { r };
        assert forall|i: int, j: int|
            #[trigger] ra(i, j) <==> 0 <= i < list.len() && 0 <= j < list.len() && listed(graph@)(
                list[i],
                list[j],
            ) by {
            if 0 <= i < n && 0 <= j < n {
                let row = if backward { j } else { i };
                let col = if backward { i } else { j };
                assert(adj@[row]@.contains(col as usize) == ra(i, j));
                if listed(graph@)(list[i], list[j]) {
                    assert(keys.to_set().contains(list[i]));
                    let q = choose|q: int| 0 <= q < keys.len() && keys[q] == list[i];
                    assert(keys[q] == list[i]);
                }
            }
        }
        if backward {
            assert(ra == |a: int, b: int| adjacent(adj@)(b, a));
        }
    }
    adj
}

/// The strongly connected components of `graph` along which one can walk in a circle, each in
/// ascending order and in the ascending order of their first members.
pub fn cycles<T: Key>(graph: &KeyMap<T, KeySet<T>>) -> (r: Vec<Vec<T>>)
    ensures
        ascending::<Vec<T>>(models(r@)),
        forall|c: Seq<T::M>| #[trigger] models(r@).contains(c) <==> is_cycle(graph@, c),
{
    let names = all_points(graph);
    let n = names.len();
    let ghost list = names.list();
    let ghost g = graph@;
    let forward = numbered(graph, &names, false);
    let backward = numbered(graph, &names, true);
    let ghost ra = adjacent(forward@);
    let ghost rb = adjacent(backward@);
    let mut done: Vec<bool> = Vec::new();
    let mut i: usize = 0;
    while i < n
        invariant
            i <= n,
            done.len() == i,
            forall|k: int| 0 <= k < i ==> !#[trigger] done@[k],
        decreases n - i,
    {
        done.push(false);
        i += 1;
    }
    let mut out: Vec<Vec<T>> = Vec::new();
    i = 0;
    while i < n
        invariant
            i <= n,
            g == graph@,
            n == list.len(),
            list == names.list(),
            ascending::<T>(list),
            names@ == points(g),
            done.len() == n,
            forward.len() == n,
            backward.len() == n,
            in_range(forward@),
            in_range(backward@),
            ra == adjacent(forward@),
            rb == adjacent(backward@),
            mirrors(g, list, ra),
            mirrors(g, list, |a: int, b: int| rb(b, a)),
            forall|j: int|
                0 <= j < n ==> (#[trigger] done@[j] <==> exists|k: int|
                    0 <= k < i && #[trigger] mutual(g, list[k], list[j])),
            forall|x: int|
                0 <= x < out.len() ==> is_cycle(g, models((#[trigger] out@[x])@)) && exists|k: int|
                    0 <= k < i && #[trigger] list[k] == models(out@[x]@)[0],
            forall|x: int, y: int|
                0 <= x < y < out.len() ==> T::precedes(
                    models((#[trigger] out@[x])@)[0],
                    models((#[trigger] out@[y])@)[0],
                ),
            forall|c: Seq<T::M>, k: int|
                #[trigger] is_cycle(g, c) && 0 <= k < i && c[0] == #[trigger] list[k]
                    ==> models(out@).contains(c),
        decreases n - i,
    {
        if !done[i] {
            let from = mark_reached(&forward, i);
            let to = mark_reached(&backward, i);
            let ghost was_done = done@;
            let mut members: Vec<T> = Vec::new();
            let mut j: usize = 0;
            proof {
                assert forall|j: int| 0 <= j < n implies (from@[j] && to@[j] <==> mutual(
                    g,
                    list[i as int],
                    #[trigger] list[j],
                )) by {
                    mirrored_walks::<T>(g, list, ra, i as int, j);
                    let rc = |a: int, b: int| rb(b, a);
                    mirrored_walks::<T>(g, list, rc, j, i as int);
                    if reaches(rb, i as int, j) {
                        reaches_converse(rb, rc, i as int, j);
                    }
                    if reaches(rc, j, i as int) {
                        reaches_converse(rc, rb, j, i as int);
                    }
                }
            }
            while j < n
                invariant
                    j <= n,
                    i < n,
                    n == list.len(),
                    list == names.list(),
                    ascending::<T>(list),
                    done.len() == n,
                    was_done.len() == n,
                    from.len() == n,
                    to.len() == n,
                    forall|j: int|
                        0 <= j < n ==> (from@[j] && to@[j] <==> mutual(
                            g,
                            list[i as int],
                            #[trigger] list[j],
                        )),
                    forall|k: int|
                        0 <= k < n ==> (#[trigger] done@[k] <==> was_done[k] || (k < j && mutual(
                            g,
                            list[i as int],
                            list[k],
                        ))),
                    ascending::<T>(models(members@)),
                    forall|m: T::M|
                        #[trigger] models(members@).contains(m) <==> exists|k: int|
                            0 <= k < j && #[trigger] list[k] == m && mutual(g, list[i as int], m),
                decreases n - j,
            {
                if from[j] && to[j] {
                    let ghost before = models(members@);
                    let ghost item = list[j as int];
                    members.push(names.at(j).dup());
                    done.set(j, true);
                    proof {
                        let after = models(members@);
                        assert(after =~= before.push(item));
                        assert(mutual(g, list[i as int], list[j as int]));
                        assert forall|x: int, y: int| 0 <= x < y < after.len() implies T::precedes(
                            #[trigger] after[x],
                            #[trigger] after[y],
                        ) by {
                            if y == before.len() {
                                assert(before.contains(before[x]));
                                let k = choose|k: int|
                                    0 <= k < j && #[trigger] list[k] == before[x] && mutual(
                                        g,
                                        list[i as int],
                                        before[x],
                                    );
                                assert(T::precedes(list[k], list[j as int]));
                            }
                        }
                        assert forall|m: T::M| #[trigger] after.contains(m) <==> exists|k: int|
                            0 <= k < j + 1 && #[trigger] list[k] == m && mutual(
                                g,
                                list[i as int],
                                m,
                            ) by {
                            if after.contains(m) {
                                let z = choose|z: int| 0 <= z < after.len() && after[z] == m;
                                if z < before.len() {
                                    assert(before[z] == m);
                                    assert(before.contains(m));
                                } else {
                                    assert(list[j as int] == m);
                                }
                            }
                            if before.contains(m) {
                                let z = choose|z: int| 0 <= z < before.len() && before[z] == m;
                                assert(after[z] == m);
                            }
                            if m == item {
                                assert(after[before.len() as int] == m);
                            }
                        }
                    }
                } else {
                    assert(!mutual(g, list[i as int], list[j as int]));
                }
                j += 1;
            }
            let mut own: bool = false;
            let mut e: usize = 0;
            while e < forward[i].len()
                invariant
                    i < n,
                    n == forward.len(),
                    e <= forward@[i as int].len(),
                    own <==> exists|z: int| 0 <= z < e && #[trigger] forward@[i as int]@[z] == i,
                decreases forward@[i as int].len() - e,
            {
                if forward[i][e] == i {
                    assert(forward@[i as int]@[e as int] == i);
                    own = true;
                }
                e += 1;
            }
            let ghost c = models(members@);
            let ghost first = list[i as int];
            proof {
                reaches_self(listed(g), first);
                assert(mutual(g, first, list[i as int]));
                assert(c.contains(first));
                assert(own <==> ra(i as int, i as int)) by {
                    if own {
                        assert(forward@[i as int]@.contains(i));
                    }
                }
                assert(own == listed(g)(first, first));
                assert forall|k: int| 0 <= k < n && k < i implies !mutual(
                    g,
                    first,
                    #[trigger] list[k],
                ) by {
                    if mutual(g, first, list[k]) {
                        assert(mutual(g, list[k], list[i as int]));
                    }
                }
                let z = choose|z: int| 0 <= z < c.len() && c[z] == first;
                assert(c.contains(c[0]));
                let k0 = choose|k: int| 0 <= k < n && #[trigger] list[k] == c[0] && mutual(g, first, c[0]);
                if z > 0 {
                    assert(T::precedes(c[0], c[z]));
                    T::order_laws(first, c[0], first);
                    if k0 > i {
                        assert(T::precedes(list[i as int], list[k0]));
                    }
                }
                assert(c[0] == first);
                assert forall|m: T::M| #[trigger] c.contains(m) <==> mutual(g, first, m) by {
                    if mutual(g, first, m) {
                        reached_is_point::<T>(g, first, m);
                        assert(names@.contains(m));
                        let k = choose|k: int| 0 <= k < list.len() && list[k] == m;
                        assert(list[k] == m);
                    }
                }
            }
            let ghost before_out = out@;
            if members.len() > 1 || own {
                out.push(members);
                proof {
                    assert(is_cycle(g, c));
                    assert forall|x: int, y: int| 0 <= x < y < out.len() implies T::precedes(
                        models((#[trigger] out@[x])@)[0],
                        models((#[trigger] out@[y])@)[0],
                    ) by {
                        if y == before_out.len() {
                            let k = choose|k: int| 0 <= k < i && #[trigger] list[k] == models(out@[x]@)[0];
                            assert(T::precedes(list[k], list[i as int]));
                        }
                    }
                    assert(list[i as int] == c[0]);
                }
            }
            proof {
                assert forall|d: Seq<T::M>, k: int|
                    #[trigger] is_cycle(g, d) && 0 <= k < i + 1 && d[0] == #[trigger] list[k] implies models(
                    out@,
                ).contains(d) by {
                    if k < i {
                        assert(models(before_out).contains(d));
                        let z = choose|z: int| 0 <= z < before_out.len() && models(before_out)[z] == d;
                        assert(models(out@)[z] == d);
                    } else {
                        assert forall|m: T::M| c.contains(m) == d.contains(m) by {}
                        assert(c.to_set() =~= d.to_set());
                        ascending_is_unique::<T>(c, d);
                        assert(models(out@)[before_out.len() as int] == c);
                    }
                }
                assert forall|j: int| 0 <= j < n implies (#[trigger] done@[j] <==> exists|k: int|
                    0 <= k < i + 1 && #[trigger] mutual(g, list[k], list[j])) by {
                    if was_done[j] {
                        let k = choose|k: int| 0 <= k < i && #[trigger] mutual(g, list[k], list[j]);
                        assert(mutual(g, list[k], list[j]));
                    }
                }
                assert forall|x: int| 0 <= x < out.len() implies is_cycle(g, models((#[trigger] out@[x])@))
                    && exists|k: int| 0 <= k < i + 1 && #[trigger] list[k] == models(out@[x]@)[0] by {
                    if x < before_out.len() {
                        assert(out@[x] == before_out[x]);
                        let k = choose|k: int| 0 <= k < i && #[trigger] list[k] == models(before_out[x]@)[0];
                        assert(list[k] == models(out@[x]@)[0]);
                    }
                }
            }
        } else {
            proof {
                let k0 = choose|k: int| 0 <= k < i && #[trigger] mutual(g, list[k], list[i as int]);
                assert forall|d: Seq<T::M>, k: int|
                    #[trigger] is_cycle(g, d) && 0 <= k < i + 1 && d[0] == #[trigger] list[k] implies models(
                    out@,
                ).contains(d) by {
                    if k == i {
                        assert(mutual(g, d[0], list[k0]));
                        assert(d.contains(list[k0]));
                        let z = choose|z: int| 0 <= z < d.len() && d[z] == list[k0];
                        assert(T::precedes(list[k0], list[i as int]));
                        T::order_laws(list[k0], list[i as int], list[k0]);
                        if z > 0 {
                            assert(T::precedes(d[0], d[z]));
                        }
                    }
                }
                assert forall|j: int| 0 <= j < n implies (#[trigger] done@[j] <==> exists|k: int|
                    0 <= k < i + 1 && #[trigger] mutual(g, list[k], list[j])) by {
                    if mutual(g, list[i as int], list[j]) {
                        reaches_trans(listed(g), list[k0], list[i as int], list[j]);
                        reaches_trans(listed(g), list[j], list[i as int], list[k0]);
                        assert(mutual(g, list[k0], list[j]));
                    }
                }
            }
        }
        i += 1;
    }
    proof {
        let all = models(out@);
        assert forall|x: int, y: int| 0 <= x < y < all.len() implies Vec::<T>::precedes(
            #[trigger] all[x],
            #[trigger] all[y],
        ) by {
            assert(all[x] == models(out@[x]@) && all[y] == models(out@[y]@));
            assert(lex_at(all[x], all[y], key_order::<T>(), 0));
            assert(lex_precedes(all[x], all[y], key_order::<T>()));
        }
        assert forall|c: Seq<T::M>| #[trigger] all.contains(c) <==> is_cycle(g, c) by {
            if all.contains(c) {
                let x = choose|x: int| 0 <= x < all.len() && all[x] == c;
                assert(is_cycle(g, models(out@[x]@)));
            }
            if is_cycle(g, c) {
                cycle_starts_at_point::<T>(g, c);
                assert(names@.contains(c[0]));
                let k = choose|k: int| 0 <= k < list.len() && list[k] == c[0];
                assert(list[k] == c[0]);
            }
        }
    }
    out
}

/// What a point of the graph reaches is a point of the graph.
proof fn reached_is_point<T: Key>(graph: Map<T::M, KeySet<T>>, a: T::M, b: T::M)
    requires
        points(graph).contains(a),
        reaches(listed(graph), a, b),
    ensures
        points(graph).contains(b),
{
    let p = choose|p: Seq<T::M>| walk_between(listed(graph), p, a, b);
    if p.len() > 1 {
        let k = p.len() - 2;
        assert(listed(graph)(p[k], p[k + 1]));
    }
}

proof fn cycle_starts_at_point<T: Key>(graph: Map<T::M, KeySet<T>>, c: Seq<T::M>)
    requires
        is_cycle(graph, c),
    ensures
        points(graph).contains(c[0]),
{
    if c.len() > 1 {
        T::order_laws(c[0], c[0], c[0]);
        assert(T::precedes(c[0], c[1]));
        assert(c.contains(c[1]));
        let p = choose|p: Seq<T::M>| walk_between(listed(graph), p, c[0], c[1]);
        assert(p.len() > 1);
        assert(listed(graph)(p[0], p[0int + 1]));
    }
}

/// Two cycles that share a member are the same cycle.
pub proof fn cycles_are_disjoint<T: Key>(
    graph: Map<T::M, KeySet<T>>,
    c: Seq<T::M>,
    d: Seq<T::M>,
    m: T::M,
)
    requires
        is_cycle(graph, c),
        is_cycle(graph, d),
        c.contains(m),
        d.contains(m),
    ensures
        c == d,
{
    let r = listed(graph);
    assert forall|x: T::M| c.contains(x) == d.contains(x) by {
        reaches_trans(r, c[0], m, d[0]);
        reaches_trans(r, d[0], m, c[0]);
        if c.contains(x) {
            reaches_trans(r, d[0], c[0], x);
            reaches_trans(r, x, c[0], d[0]);
        }
        if d.contains(x) {
            reaches_trans(r, c[0], d[0], x);
            reaches_trans(r, x, d[0], c[0]);
        }
    }
    assert(c.to_set() =~= d.to_set());
    ascending_is_unique::<T>(c, d);
}

/// Errors come behind warnings, and warnings behind what is only told.
pub proof fn severities_ascend(a: Severity, b: Severity)
    ensures
        a is Error && !(b is Error) ==> Severity::precedes(b, a) && !Severity::precedes(a, b),
        a is Info && !(b is Info) ==> Severity::precedes(a, b) && !Severity::precedes(b, a),
        Severity::precedes(a, b) || Severity::precedes(b, a) || a == b,
{
}

} // verus!
