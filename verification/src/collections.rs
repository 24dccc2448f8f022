//! Ordered sets and maps kept as sorted vectors without duplicates.
use vstd::prelude::*;

use crate::order::{models, Key, Rank};

verus! {

/// Every element of `s` comes before the ones behind it.
pub open spec fn ascending<T: Key>(s: Seq<T::M>) -> bool {
    forall|i: int, j: int| 0 <= i < j < s.len() ==> T::precedes(#[trigger] s[i], #[trigger] s[j])
}

/// Finds where `key` stands in an ascending list, or where it would have to be put.
fn locate<T: Key>(items: &Vec<T>, key: &T) -> (r: (bool, usize))
    requires
        ascending::<T>(models(items@)),
    ensures
        r.1 <= items.len(),
        r.0 ==> r.1 < items.len() && items@[r.1 as int].model() == key.model(),
        !r.0 ==> forall|i: int|
            0 <= i < r.1 ==> T::precedes((#[trigger] items@[i]).model(), key.model()),
        !r.0 ==> forall|i: int|
            r.1 <= i < items.len() ==> T::precedes(key.model(), (#[trigger] items@[i]).model()),
{
    let mut low: usize = 0;
    let mut high: usize = items.len();
    while low < high
        invariant
            low <= high <= items.len(),
            ascending::<T>(models(items@)),
            forall|i: int| 0 <= i < low ==> T::precedes((#[trigger] items@[i]).model(), key.model()),
            forall|i: int|
                high <= i < items.len() ==> T::precedes(key.model(), (#[trigger] items@[i]).model()),
        decreases high - low,
    {
        let mid: usize = low + (high - low) / 2;
        match items[mid].rank(key) {
            Rank::Same => {
                return (true, mid);
            },
            Rank::Before => {
                proof {
                    assert forall|i: int| 0 <= i < mid + 1 implies T::precedes(
                        (#[trigger] items@[i]).model(),
                        key.model(),
                    ) by {
                        if i < mid {
                            let s = models(items@);
                            assert(T::precedes(s[i], s[mid as int]));
                            T::order_laws(items@[i].model(), items@[mid as int].model(), key.model());
                        }
                    }
                }
                low = mid + 1;
            },
            Rank::After => {
                proof {
                    assert forall|i: int| mid <= i < items.len() implies T::precedes(
                        key.model(),
                        (#[trigger] items@[i]).model(),
                    ) by {
                        if mid < i {
                            let s = models(items@);
                            assert(T::precedes(s[mid as int], s[i]));
                            T::order_laws(key.model(), items@[mid as int].model(), items@[i].model());
                        }
                    }
                }
                high = mid;
            },
        }
    }
    (false, low)
}

/// A set of keys, listed in ascending order.
pub struct KeySet<T: Key> {
    items: Vec<T>,
}

impl<T: Key> View for KeySet<T> {
    type V = Set<T::M>;

    open spec fn view(&self) -> Set<T::M> {
        self.list().to_set()
    }
}

impl<T: Key> KeySet<T> {
    #[verifier::type_invariant]
    spec fn sorted(self) -> bool {
        ascending::<T>(models(self.items@))
    }

    /// The members in ascending order.
    pub closed spec fn list(self) -> Seq<T::M> {
        models(self.items@)
    }

    pub fn new() -> (r: Self)
        ensures
            r@ == Set::<T::M>::empty(),
            r.list().len() == 0,
    {
        let r = KeySet { items: Vec::new() };
        assert(r@ =~= Set::<T::M>::empty());
        r
    }

    pub fn len(&self) -> (n: usize)
        ensures
            n == self.list().len(),
            n == 0 <==> self@ == Set::<T::M>::empty(),
            ascending::<T>(self.list()),
    {
        let n = self.items.len();
        proof {
            use_type_invariant(self);
            if n > 0 {
                assert(self.list().contains(self.list()[0]));
                assert(self@.contains(self.list()[0]));
            } else {
                assert(self@ =~= Set::<T::M>::empty());
            }
        }
        n
    }

    /// The `i`th member in ascending order.
    pub fn at(&self, i: usize) -> (r: &T)
        requires
            i < self.list().len(),
        ensures
            r.model() == self.list()[i as int],
            self@.contains(r.model()),
    {
        let r = &self.items[i];
        assert(self.list()[i as int] == r.model());
        assert(self.list().contains(r.model()));
        r
    }

    pub fn contains(&self, key: &T) -> (r: bool)
        ensures
            r == self@.contains(key.model()),
    {
        proof {
            use_type_invariant(self);
        }
        let (found, at) = locate(&self.items, key);
        proof {
            if found {
                assert(self.list()[at as int] == key.model());
                assert(self.list().contains(key.model()));
            } else {
                T::order_laws(key.model(), key.model(), key.model());
                assert forall|i: int| 0 <= i < self.list().len() implies self.list()[i]
                    != key.model() by {
                    assert(self.list()[i] == self.items@[i].model());
                }
            }
        }
        found
    }

    /// The place of `key` in the ascending order.
    pub fn position(&self, key: &T) -> (r: Option<usize>)
        ensures
            match r {
                Some(i) => i < self.list().len() && self.list()[i as int] == key.model(),
                None => !self@.contains(key.model()),
            },
    {
        proof {
            use_type_invariant(self);
        }
        let (found, at) = locate(&self.items, key);
        if found {
            assert(self.list()[at as int] == self.items@[at as int].model());
            Some(at)
        } else {
            proof {
                T::order_laws(key.model(), key.model(), key.model());
                assert forall|i: int| 0 <= i < self.list().len() implies self.list()[i]
                    != key.model() by {
                    assert(self.list()[i] == self.items@[i].model());
                }
            }
            None
        }
    }

    /// Adds `key`; true when it was not there before.
    pub fn insert(&mut self, key: T) -> (added: bool)
        ensures
            final(self)@ == old(self)@.insert(key.model()),
            added == !old(self)@.contains(key.model()),
    {
        let ghost before = self.list();
        let ghost m = key.model();
        let mut items: Vec<T> = Vec::new();
        proof {
            use_type_invariant(&*self);
        }
        std::mem::swap(&mut items, &mut self.items);
        let (found, at) = locate(&items, &key);
        if found {
            self.items = items;
            proof {
                assert(before[at as int] == m);
                assert(before.contains(m));
                assert(self@ =~= old(self)@.insert(m));
            }
            return false;
        }
        items.insert(at, key);
        proof {
            let after = models(items@);
            assert(after =~= before.insert(at as int, m));
            T::order_laws(m, m, m);
            assert forall|i: int, j: int| 0 <= i < j < after.len() implies T::precedes(
                #[trigger] after[i],
                #[trigger] after[j],
            ) by {
                let i0 = if i < at { i } else { i - 1 };
                let j0 = if j < at { j } else { j - 1 };
                if i != at && j != at {
                    assert(T::precedes(before[i0], before[j0]));
                }
            }
            assert forall|x: T::M| after.contains(x) == (before.contains(x) || x == m) by {
                if before.contains(x) {
                    let k = choose|k: int| 0 <= k < before.len() && before[k] == x;
                    let k2 = if k < at { k } else { k + 1 };
                    assert(after[k2] == x);
                }
                if after.contains(x) && x != m {
                    let k = choose|k: int| 0 <= k < after.len() && after[k] == x;
                    let k2 = if k < at { k } else { k - 1 };
                    assert(before[k2] == x);
                }
                if x == m {
                    assert(after[at as int] == m);
                }
            }
            assert(!before.contains(m));
        }
        self.items = items;
        assert(self@ =~= old(self)@.insert(m));
        true
    }
}

impl<T: Key> KeySet<T> {
    pub proof fn is_finite(self)
        ensures
            self@.finite(),
    {
        vstd::seq_lib::seq_to_set_is_finite(self.list());
    }

    /// Drops `key`; true when it was there.
    pub fn remove(&mut self, key: &T) -> (removed: bool)
        ensures
            final(self)@ == old(self)@.remove(key.model()),
            removed == old(self)@.contains(key.model()),
    {
        let ghost before = self.list();
        let ghost m = key.model();
        let mut items: Vec<T> = Vec::new();
        proof {
            use_type_invariant(&*self);
        }
        std::mem::swap(&mut items, &mut self.items);
        let (found, at) = locate(&items, key);
        proof {
            T::order_laws(m, m, m);
        }
        if !found {
            self.items = items;
            proof {
                assert forall|i: int| 0 <= i < before.len() implies before[i] != m by {
                    assert(before[i] == items@[i].model());
                }
                assert(self@ =~= old(self)@.remove(m));
            }
            return false;
        }
        items.remove(at);
        proof {
            let after = models(items@);
            assert(after =~= before.remove(at as int));
            assert forall|i: int, j: int| 0 <= i < j < after.len() implies T::precedes(
                #[trigger] after[i],
                #[trigger] after[j],
            ) by {
                let i0 = if i < at { i } else { i + 1 };
                let j0 = if j < at { j } else { j + 1 };
                assert(T::precedes(before[i0], before[j0]));
            }
            assert(before[at as int] == m);
            assert(before.contains(m));
            assert forall|x: T::M| after.contains(x) == (before.contains(x) && x != m) by {
                if before.contains(x) && x != m {
                    let k = choose|k: int| 0 <= k < before.len() && before[k] == x;
                    let k2 = if k < at { k } else { k - 1 };
                    assert(after[k2] == x);
                }
                if after.contains(x) {
                    let k = choose|k: int| 0 <= k < after.len() && after[k] == x;
                    let k2 = if k < at { k } else { k + 1 };
                    assert(before[k2] == x);
                    if x == m {
                        if k2 < at {
                            assert(T::precedes(before[k2], before[at as int]));
                        } else {
                            assert(T::precedes(before[at as int], before[k2]));
                        }
                    }
                }
            }
        }
        self.items = items;
        assert(self@ =~= old(self)@.remove(m));
        true
    }

    /// Adds every member of `other`.
    pub fn extend(&mut self, other: &KeySet<T>)
        ensures
            final(self)@ == old(self)@.union(other@),
    {
        let n = other.len();
        let ghost start = self@;
        let mut i: usize = 0;
        while i < n
            invariant
                i <= n,
                n == other.list().len(),
                self@ == start.union(other.list().take(i as int).to_set()),
            decreases n - i,
        {
            let ghost list = other.list();
            self.insert(other.at(i).dup());
            proof {
                assert(list.take(i as int + 1) =~= list.take(i as int).push(list[i as int]));
                push_to_set(list.take(i as int), list[i as int]);
                assert(self@ =~= start.union(list.take(i as int + 1).to_set()));
            }
            i += 1;
        }
        proof {
            assert(start.union(other.list().take(0).to_set()) =~= start);
            assert(other.list().take(n as int) =~= other.list());
        }
    }

    pub fn dup(&self) -> (r: KeySet<T>)
        ensures
            r@ == self@,
            r.list() == self.list(),
    {
        proof {
            use_type_invariant(self);
        }
        KeySet { items: self.items.dup() }
    }
}

pub proof fn push_to_set<A>(s: Seq<A>, a: A)
    ensures
        s.push(a).to_set() == s.to_set().insert(a),
{
    let t = s.push(a);
    assert forall|x: A| t.to_set().contains(x) == s.to_set().insert(a).contains(x) by {
        if s.contains(x) {
            let k = choose|k: int| 0 <= k < s.len() && s[k] == x;
            assert(t[k] == x);
        }
        if x == a {
            assert(t[s.len() as int] == a);
        }
        if t.contains(x) && x != a {
            let k = choose|k: int| 0 <= k < t.len() && t[k] == x;
            assert(s[k] == x);
        }
    }
    assert(t.to_set() =~= s.to_set().insert(a));
}

/// In an ascending list no element occurs twice.
pub proof fn ascending_is_distinct<T: Key>(a: Seq<T::M>, i: int, j: int)
    requires
        ascending::<T>(a),
        0 <= i < a.len(),
        0 <= j < a.len(),
        a[i] == a[j],
    ensures
        i == j,
{
    T::order_laws(a[i], a[i], a[i]);
    if i < j {
        assert(T::precedes(a[i], a[j]));
    } else if j < i {
        assert(T::precedes(a[j], a[i]));
    }
}

/// Two ascending lists with the same members are the same list.
pub proof fn ascending_is_unique<T: Key>(a: Seq<T::M>, b: Seq<T::M>)
    requires
        ascending::<T>(a),
        ascending::<T>(b),
        a.to_set() == b.to_set(),
    ensures
        a == b,
    decreases a.len(),
{
    if a.len() == 0 {
        if b.len() > 0 {
            assert(b.to_set().contains(b[0]));
            assert(a.to_set().contains(b[0]));
        }
        assert(a =~= b);
    } else {
        assert(a.to_set().contains(a.last()));
        assert(b.to_set().contains(a.last()));
        assert(b.to_set().contains(b.last()));
        assert(a.to_set().contains(b.last()));
        let i = choose|i: int| 0 <= i < b.len() && b[i] == a.last();
        let j = choose|j: int| 0 <= j < a.len() && a[j] == b.last();
        T::order_laws(a.last(), b.last(), a.last());
        if a.last() != b.last() {
            assert(T::precedes(b[i], b[b.len() - 1]));
            assert(T::precedes(a[j], a[a.len() - 1]));
        }
        let a2 = a.drop_last();
        let b2 = b.drop_last();
        assert forall|x: T::M| a2.to_set().contains(x) == b2.to_set().contains(x) by {
            T::order_laws(x, x, x);
            if a2.contains(x) {
                let k = choose|k: int| 0 <= k < a2.len() && a2[k] == x;
                assert(T::precedes(a[k], a[a.len() - 1]));
                assert(a.to_set().contains(a[k]));
                assert(b.contains(x));
                let k2 = choose|k: int| 0 <= k < b.len() && b[k] == x;
                assert(b2[k2] == x);
            }
            if b2.contains(x) {
                let k = choose|k: int| 0 <= k < b2.len() && b2[k] == x;
                assert(T::precedes(b[k], b[b.len() - 1]));
                assert(b.to_set().contains(b[k]));
                assert(a.contains(x));
                let k2 = choose|k: int| 0 <= k < a.len() && a[k] == x;
                assert(a2[k2] == x);
            }
        }
        assert(a2.to_set() =~= b2.to_set());
        ascending_is_unique::<T>(a2, b2);
        assert(a =~= a2.push(a.last()));
        assert(b =~= b2.push(b.last()));
    }
}

/// The members of a finite set in ascending order.
pub open spec fn ascending_list<T: Key>(s: Set<T::M>) -> Seq<T::M> {
    choose|l: Seq<T::M>| ascending::<T>(l) && l.to_set() == s
}

/// A list that ascends and has these members is the only one.
pub proof fn ascending_list_is<T: Key>(l: Seq<T::M>, s: Set<T::M>)
    requires
        ascending::<T>(l),
        l.to_set() == s,
    ensures
        ascending_list::<T>(s) == l,
{
    let other = ascending_list::<T>(s);
    assert(ascending::<T>(other) && other.to_set() == s);
    ascending_is_unique::<T>(l, other);
}

/// An ascending list can take one more member.
proof fn ascending_takes_in<T: Key>(l: Seq<T::M>, x: T::M) -> (r: Seq<T::M>)
    requires
        ascending::<T>(l),
        !l.contains(x),
    ensures
        ascending::<T>(r),
        r.to_set() == l.to_set().insert(x),
    decreases l.len(),
{
    if l.len() == 0 {
        let r = seq![x];
        assert(r.to_set() =~= l.to_set().insert(x)) by {
            assert(r[0] == x);
        }
        r
    } else {
        let head = l[0];
        let tail = l.skip(1);
        assert forall|i: int, j: int| 0 <= i < j < tail.len() implies T::precedes(
            #[trigger] tail[i],
            #[trigger] tail[j],
        ) by {
            assert(tail[i] == l[i + 1] && tail[j] == l[j + 1]);
        }
        assert(l.contains(head));
        T::order_laws(x, head, head);
        T::order_laws(head, x, x);
        let rest = if T::precedes(x, head) {
            l
        } else {
            assert forall|k: int| 0 <= k < tail.len() implies tail[k] != x by {
                assert(tail[k] == l[k + 1]);
            }
            ascending_takes_in::<T>(tail, x)
        };
        let first = if T::precedes(x, head) {
            x
        } else {
            head
        };
        let r = seq![first] + rest;
        assert forall|k: int| 0 <= k < rest.len() implies T::precedes(first, #[trigger] rest[k]) by {
            if T::precedes(x, head) {
                if k > 0 {
                    assert(T::precedes(l[0], l[k]));
                    T::order_laws(x, head, l[k]);
                }
            } else {
                assert(rest.to_set().contains(rest[k]));
                if rest[k] != x {
                    assert(tail.contains(rest[k]));
                    let m = choose|m: int| 0 <= m < tail.len() && tail[m] == rest[k];
                    assert(tail[m] == l[m + 1]);
                    assert(T::precedes(l[0], l[m + 1]));
                }
            }
        }
        assert forall|i: int, j: int| 0 <= i < j < r.len() implies T::precedes(
            #[trigger] r[i],
            #[trigger] r[j],
        ) by {
            assert(r[j] == rest[j - 1]);
            if i > 0 {
                assert(r[i] == rest[i - 1]);
            }
        }
        assert forall|y: T::M| r.to_set().contains(y) == l.to_set().insert(x).contains(y) by {
            if r.contains(y) {
                let k = choose|k: int| 0 <= k < r.len() && r[k] == y;
                if k > 0 {
                    assert(rest[k - 1] == y);
                    assert(rest.to_set().contains(y));
                    if tail.contains(y) {
                        let m = choose|m: int| 0 <= m < tail.len() && tail[m] == y;
                        assert(l[m + 1] == y);
                    }
                }
            }
            if l.contains(y) || y == x {
                if y == first {
                    assert(r[0] == y);
                } else {
                    if !T::precedes(x, head) && y != x {
                        let m = choose|m: int| 0 <= m < l.len() && l[m] == y;
                        assert(tail[m - 1] == y);
                    }
                    assert(rest.to_set().contains(y));
                    let k = choose|k: int| 0 <= k < rest.len() && rest[k] == y;
                    assert(r[k + 1] == y);
                }
            }
        }
        assert(r.to_set() =~= l.to_set().insert(x));
        r
    }
}

proof fn finite_sets_are_listed<T: Key>(s: Set<T::M>) -> (r: Seq<T::M>)
    requires
        s.finite(),
    ensures
        ascending::<T>(r),
        r.to_set() == s,
    decreases s.len(),
{
    if s.len() == 0 {
        let r = Seq::<T::M>::empty();
        assert(s =~= Set::empty());
        assert(r.to_set() =~= s);
        r
    } else {
        let x = s.choose();
        let l = finite_sets_are_listed::<T>(s.remove(x));
        assert(!l.contains(x)) by {
            if l.contains(x) {
                assert(l.to_set().contains(x));
            }
        }
        let r = ascending_takes_in::<T>(l, x);
        assert(r.to_set() =~= s);
        r
    }
}

/// The members of a finite set can be listed: in ascending order, and each once.
pub proof fn ascending_list_fits<T: Key>(s: Set<T::M>)
    requires
        s.finite(),
    ensures
        ascending::<T>(ascending_list::<T>(s)),
        ascending_list::<T>(s).to_set() == s,
        ascending_list::<T>(s).no_duplicates(),
{
    let r = finite_sets_are_listed::<T>(s);
    assert(ascending::<T>(r) && r.to_set() == s);
    let l = ascending_list::<T>(s);
    assert forall|i: int, j: int| 0 <= i < l.len() && 0 <= j < l.len() && i != j implies l[i] != l[j] by {
        if l[i] == l[j] {
            ascending_is_distinct::<T>(l, i, j);
        }
    }
}

/// A map from keys to values, listed in ascending order of the keys.
pub struct KeyMap<K: Key, V> {
    ids: Vec<K>,
    vals: Vec<V>,
}

/// The value that stands beside the one occurrence of `k`.
spec fn beside<M, V>(ids: Seq<M>, vals: Seq<V>, k: M) -> V {
    vals[choose|i: int| 0 <= i < ids.len() && ids[i] == k]
}

spec fn paired<M, V>(ids: Seq<M>, vals: Seq<V>) -> Map<M, V> {
    Map::new(|k: M| ids.contains(k), |k: M| beside(ids, vals, k))
}

proof fn paired_index<K: Key, V>(ids: Seq<K::M>, vals: Seq<V>, i: int)
    requires
        ascending::<K>(ids),
        ids.len() == vals.len(),
        0 <= i < ids.len(),
    ensures
        paired(ids, vals).dom().contains(ids[i]),
        paired(ids, vals)[ids[i]] == vals[i],
{
    let k = ids[i];
    assert(ids.contains(k));
    let j = choose|j: int| 0 <= j < ids.len() && ids[j] == k;
    K::order_laws(k, k, k);
    if j < i {
        assert(K::precedes(ids[j], ids[i]));
    } else if i < j {
        assert(K::precedes(ids[i], ids[j]));
    }
}

impl<K: Key, V> View for KeyMap<K, V> {
    type V = Map<K::M, V>;

    closed spec fn view(&self) -> Map<K::M, V> {
        paired(models(self.ids@), self.vals@)
    }
}

impl<K: Key, V> KeyMap<K, V> {
    #[verifier::type_invariant]
    spec fn sorted(self) -> bool {
        ascending::<K>(models(self.ids@)) && self.ids@.len() == self.vals@.len()
    }

    /// The keys in ascending order.
    pub closed spec fn keys(self) -> Seq<K::M> {
        models(self.ids@)
    }

    pub proof fn dom_is_finite(self)
        ensures
            self@.dom() == self.keys().to_set(),
            self@.dom().finite(),
    {
        assert(self@.dom() =~= self.keys().to_set());
        vstd::seq_lib::seq_to_set_is_finite(self.keys());
    }

    pub fn new() -> (r: Self)
        ensures
            r@ == Map::<K::M, V>::empty(),
            r.keys().len() == 0,
    {
        let r = KeyMap { ids: Vec::new(), vals: Vec::new() };
        assert(r@ =~= Map::<K::M, V>::empty());
        r
    }

    pub fn len(&self) -> (n: usize)
        ensures
            n == self.keys().len(),
            ascending::<K>(self.keys()),
            self@.dom() == self.keys().to_set(),
            self@.dom().finite(),
    {
        proof {
            use_type_invariant(self);
            assert(self@.dom() =~= self.keys().to_set());
            self.dom_is_finite();
        }
        self.ids.len()
    }

    /// The `i`th key in ascending order.
    pub fn key_at(&self, i: usize) -> (r: &K)
        requires
            i < self.keys().len(),
        ensures
            r.model() == self.keys()[i as int],
            self@.dom().contains(r.model()),
    {
        proof {
            use_type_invariant(self);
            paired_index::<K, V>(self.keys(), self.vals@, i as int);
        }
        &self.ids[i]
    }

    /// The value of the `i`th key in ascending order.
    pub fn value_at(&self, i: usize) -> (r: &V)
        requires
            i < self.keys().len(),
        ensures
            *r == self@[self.keys()[i as int]],
            self@.dom().contains(self.keys()[i as int]),
    {
        proof {
            use_type_invariant(self);
            paired_index::<K, V>(self.keys(), self.vals@, i as int);
        }
        &self.vals[i]
    }

    pub fn get(&self, key: &K) -> (r: Option<&V>)
        ensures
            match r {
                Some(v) => self@.dom().contains(key.model()) && *v == self@[key.model()],
                None => !self@.dom().contains(key.model()),
            },
    {
        proof {
            use_type_invariant(self);
        }
        let (found, at) = locate(&self.ids, key);
        if found {
            proof {
                paired_index::<K, V>(self.keys(), self.vals@, at as int);
            }
            Some(&self.vals[at])
        } else {
            proof {
                K::order_laws(key.model(), key.model(), key.model());
                assert forall|i: int| 0 <= i < self.keys().len() implies self.keys()[i]
                    != key.model() by {
                    assert(self.keys()[i] == self.ids@[i].model());
                }
            }
            None
        }
    }

    /// The keys in ascending order and their values.
    pub fn into_parts(self) -> (r: (Vec<K>, Vec<V>))
        ensures
            models(r.0@) == self.keys(),
            r.1@.len() == self.keys().len(),
            forall|i: int|
                0 <= i < self.keys().len() ==> #[trigger] r.1@[i] == self@[self.keys()[i]],
    {
        proof {
            use_type_invariant(&self);
            assert forall|i: int| 0 <= i < self.keys().len() implies #[trigger] self.vals@[i]
                == self@[self.keys()[i]] by {
                paired_index::<K, V>(self.keys(), self.vals@, i);
            }
        }
        (self.ids, self.vals)
    }

    pub fn contains_key(&self, key: &K) -> (r: bool)
        ensures
            r == self@.dom().contains(key.model()),
    {
        match self.get(key) {
            Some(_) => true,
            None => false,
        }
    }

    /// Binds `key` to `value`, in place of what it was bound to.
    pub fn insert(&mut self, key: K, value: V)
        ensures
            final(self)@ == old(self)@.insert(key.model(), value),
    {
        let ghost before = self.keys();
        let ghost vals0 = self.vals@;
        let ghost m = key.model();
        proof {
            use_type_invariant(&*self);
        }
        let mut whole = KeyMap { ids: Vec::new(), vals: Vec::new() };
        std::mem::swap(&mut whole, self);
        let KeyMap { ids: mut ids, vals: mut vals } = whole;
        let (found, at) = locate(&ids, &key);
        proof {
            K::order_laws(m, m, m);
        }
        if found {
            vals.set(at, value);
            *self = KeyMap { ids, vals };
            proof {
                assert(before[at as int] == m);
                assert(before.contains(m));
                assert(self.keys() == before);
                assert forall|k: K::M| before.contains(k) implies self@[k] == old(self)@.insert(
                    m,
                    value,
                )[k] by {
                    let i = choose|i: int| 0 <= i < before.len() && before[i] == k;
                    paired_index::<K, V>(before, self.vals@, i);
                    paired_index::<K, V>(before, vals0, i);
                    paired_index::<K, V>(before, self.vals@, at as int);
                }
                assert(self@ =~= old(self)@.insert(m, value));
            }
            return;
        }
        ids.insert(at, key);
        vals.insert(at, value);
        proof {
            let after = models(ids@);
            assert(after =~= before.insert(at as int, m));
            assert forall|i: int, j: int| 0 <= i < j < after.len() implies K::precedes(
                #[trigger] after[i],
                #[trigger] after[j],
            ) by {
                let i0 = if i < at { i } else { i - 1 };
                let j0 = if j < at { j } else { j - 1 };
                if i != at && j != at {
                    assert(K::precedes(before[i0], before[j0]));
                }
            }
            assert(!before.contains(m));
            assert forall|x: K::M| after.contains(x) == (before.contains(x) || x == m) by {
                if before.contains(x) {
                    let k = choose|k: int| 0 <= k < before.len() && before[k] == x;
                    let k2 = if k < at { k } else { k + 1 };
                    assert(after[k2] == x);
                }
                if after.contains(x) && x != m {
                    let k = choose|k: int| 0 <= k < after.len() && after[k] == x;
                    let k2 = if k < at { k } else { k - 1 };
                    assert(before[k2] == x);
                }
                if x == m {
                    assert(after[at as int] == m);
                }
            }
            let new_map = paired(after, vals@);
            let old_map = paired(before, vals0);
            assert forall|k: K::M| after.contains(k) implies new_map[k] == old_map.insert(
                m,
                value,
            )[k] by {
                let i = choose|i: int| 0 <= i < after.len() && after[i] == k;
                paired_index::<K, V>(after, vals@, i);
                if i == at {
                    assert(k == m);
                } else {
                    let i0 = if i < at { i } else { i - 1 };
                    assert(before[i0] == k);
                    paired_index::<K, V>(before, vals0, i0);
                    assert(vals@[i] == vals0[i0]);
                }
            }
            assert(new_map =~= old_map.insert(m, value));
        }
        *self = KeyMap { ids, vals };
    }

    /// Drops `key` and gives back what it was bound to.
    pub fn remove(&mut self, key: &K) -> (r: Option<V>)
        ensures
            final(self)@ == old(self)@.remove(key.model()),
            match r {
                Some(v) => old(self)@.dom().contains(key.model()) && v == old(self)@[key.model()],
                None => !old(self)@.dom().contains(key.model()),
            },
    {
        let ghost before = self.keys();
        let ghost vals0 = self.vals@;
        let ghost m = key.model();
        proof {
            use_type_invariant(&*self);
        }
        let mut whole = KeyMap { ids: Vec::new(), vals: Vec::new() };
        std::mem::swap(&mut whole, self);
        let KeyMap { ids: mut ids, vals: mut vals } = whole;
        let (found, at) = locate(&ids, key);
        proof {
            K::order_laws(m, m, m);
        }
        if !found {
            *self = KeyMap { ids, vals };
            proof {
                assert forall|i: int| 0 <= i < before.len() implies before[i] != m by {
                    assert(before[i] == ids@[i].model());
                }
                assert(!before.contains(m));
                assert(self@ =~= old(self)@.remove(m));
            }
            return None;
        }
        ids.remove(at);
        let value = vals.remove(at);
        proof {
            paired_index::<K, V>(before, vals0, at as int);
            let after = models(ids@);
            assert(after =~= before.remove(at as int));
            assert forall|i: int, j: int| 0 <= i < j < after.len() implies K::precedes(
                #[trigger] after[i],
                #[trigger] after[j],
            ) by {
                let i0 = if i < at { i } else { i + 1 };
                let j0 = if j < at { j } else { j + 1 };
                assert(K::precedes(before[i0], before[j0]));
            }
            assert(before[at as int] == m);
            let new_map = paired(after, vals@);
            let old_map = paired(before, vals0);
            assert forall|k: K::M| after.contains(k) == (before.contains(k) && k != m) by {
                if before.contains(k) && k != m {
                    let i = choose|i: int| 0 <= i < before.len() && before[i] == k;
                    let i2 = if i < at { i } else { i - 1 };
                    assert(after[i2] == k);
                }
                if after.contains(k) {
                    let i = choose|i: int| 0 <= i < after.len() && after[i] == k;
                    let i2 = if i < at { i } else { i + 1 };
                    assert(before[i2] == k);
                    if k == m {
                        ascending_is_distinct::<K>(before, i2, at as int);
                    }
                }
            }
            assert forall|k: K::M| after.contains(k) implies new_map[k] == old_map[k] by {
                let i = choose|i: int| 0 <= i < after.len() && after[i] == k;
                let i2 = if i < at { i } else { i + 1 };
                assert(before[i2] == k);
                paired_index::<K, V>(after, vals@, i);
                paired_index::<K, V>(before, vals0, i2);
                assert(vals@[i] == vals0[i2]);
            }
            assert(new_map =~= old_map.remove(m));
        }
        *self = KeyMap { ids, vals };
        Some(value)
    }
}

/// The first number in `i..n` of which `p` holds.
pub open spec fn first_from(p: spec_fn(int) -> bool, i: int, n: int) -> Option<int>
    decreases n - i,
{
    if i >= n {
        None
    } else if p(i) {
        Some(i)
    } else {
        first_from(p, i + 1, n)
    }
}

/// A search that goes one number further finds the same, or else that number.
pub proof fn first_from_next(p: spec_fn(int) -> bool, i: int, n: int)
    requires
        i <= n,
    ensures
        first_from(p, i, n + 1) == (match first_from(p, i, n) {
            Some(k) => Some(k),
            None => if p(n) {
                Some(n)
            } else {
                None
            },
        }),
    decreases n - i,
{
    if i < n {
        if !p(i) {
            first_from_next(p, i + 1, n);
        }
    } else {
        reveal_with_fuel(first_from, 2);
    }
}

/// What a search finds is in range and fits, and is the first that does.
pub proof fn first_from_fits(p: spec_fn(int) -> bool, i: int, n: int)
    ensures
        match first_from(p, i, n) {
            Some(k) => i <= k < n && p(k) && forall|j: int| i <= j < k ==> !#[trigger] p(j),
            None => forall|j: int| i <= j < n ==> !#[trigger] p(j),
        },
    decreases n - i,
{
    if i < n && !p(i) {
        first_from_fits(p, i + 1, n);
    }
}

/// The last number below `n` of which `p` holds.
pub open spec fn last_before(p: spec_fn(int) -> bool, n: int) -> Option<int>
    decreases n,
{
    if n <= 0 {
        None
    } else if p(n - 1) {
        Some(n - 1)
    } else {
        last_before(p, n - 1)
    }
}

pub proof fn last_before_fits(p: spec_fn(int) -> bool, n: int)
    ensures
        match last_before(p, n) {
            Some(k) => 0 <= k < n && p(k) && forall|j: int| k < j < n ==> !#[trigger] p(j),
            None => forall|j: int| 0 <= j < n ==> !#[trigger] p(j),
        },
    decreases n,
{
    if n > 0 && !p(n - 1) {
        last_before_fits(p, n - 1);
    }
}

/// Leaving out one more element of a finite set leaves one element less.
pub proof fn difference_shrinks<A>(all: Set<A>, without: Set<A>, a: A)
    requires
        all.finite(),
        all.contains(a),
        !without.contains(a),
    ensures
        all.difference(without.insert(a)).len() + 1 == all.difference(without).len(),
        all.difference(without).finite(),
{
    assert(all.difference(without.insert(a)) =~= all.difference(without).remove(a));
    vstd::set_lib::lemma_set_subset_finite(all, all.difference(without));
}

/// `m` with every key moved by `f`; where keys meet, the one that comes later in `keys` stays.
pub open spec fn relocated<K, V>(
    keys: Seq<K>,
    m: Map<K, V>,
    f: spec_fn(K) -> K,
    n: int,
) -> Map<K, V>
    decreases n,
{
    if n <= 0 {
        Map::empty()
    } else {
        relocated(keys, m, f, n - 1).insert(f(keys[n - 1]), m[keys[n - 1]])
    }
}

/// The union of what `f` gives for the elements of `s`.
pub open spec fn union_over<A, E>(s: Seq<A>, f: spec_fn(A) -> Set<E>) -> Set<E> {
    Set::new(|e: E| exists|i: int| 0 <= i < s.len() && (#[trigger] f(s[i])).contains(e))
}

pub proof fn union_over_none<A, E>(s: Seq<A>, f: spec_fn(A) -> Set<E>)
    requires
        s.len() == 0,
    ensures
        union_over(s, f) == Set::<E>::empty(),
{
    assert(union_over(s, f) =~= Set::<E>::empty());
}

pub proof fn union_over_next<A, E>(s: Seq<A>, f: spec_fn(A) -> Set<E>, n: int)
    requires
        0 <= n < s.len(),
    ensures
        union_over(s.take(n + 1), f) == union_over(s.take(n), f).union(f(s[n])),
{
    let a = s.take(n);
    let b = s.take(n + 1);
    assert forall|e: E| union_over(b, f).contains(e) == union_over(a, f).union(f(s[n])).contains(e) by {
        if union_over(b, f).contains(e) {
            let i = choose|i: int| 0 <= i < b.len() && (#[trigger] f(b[i])).contains(e);
            if i < n {
                assert(f(a[i]).contains(e));
            }
        }
        if union_over(a, f).contains(e) {
            let i = choose|i: int| 0 <= i < a.len() && (#[trigger] f(a[i])).contains(e);
            assert(f(b[i]).contains(e));
        }
        if f(s[n]).contains(e) {
            assert(f(b[n]).contains(e));
        }
    }
    assert(union_over(b, f) =~= union_over(a, f).union(f(s[n])));
}

pub proof fn union_over_all<A, E>(s: Seq<A>, f: spec_fn(A) -> Set<E>, n: int)
    requires
        n == s.len(),
    ensures
        union_over(s.take(n), f) == union_over(s, f),
{
    assert(s.take(n) =~= s);
}

/// The pairs that a map to sets lists.
pub open spec fn pairs<K: Key, T: Key>(m: Map<K::M, KeySet<T>>) -> Set<(K::M, T::M)> {
    Set::new(|e: (K::M, T::M)| m.dom().contains(e.0) && m[e.0]@.contains(e.1))
}

impl<K: Key, T: Key> KeyMap<K, KeySet<T>> {
    /// Adds `item` to the set of `key`.
    pub fn link(&mut self, key: K, item: T)
        ensures
            pairs::<K, T>(final(self)@) == pairs::<K, T>(old(self)@).insert(
                (key.model(), item.model()),
            ),
            final(self)@.dom() == old(self)@.dom().insert(key.model()),
    {
        let ghost m = key.model();
        let ghost x = item.model();
        let ghost start = self@;
        let mut whole = KeyMap { ids: Vec::new(), vals: Vec::new() };
        std::mem::swap(&mut whole, self);
        proof {
            use_type_invariant(&whole);
        }
        let KeyMap { ids, mut vals } = whole;
        let ghost keys = models(ids@);
        let (found, at) = locate(&ids, &key);
        if found {
            let ghost vals0 = vals@;
            vals[at].insert(item);
            *self = KeyMap { ids, vals };
            proof {
                paired_index::<K, KeySet<T>>(keys, vals0, at as int);
                assert(keys.contains(m));
                assert forall|k: K::M| keys.contains(k) implies (k != m ==> #[trigger] self@[k] == start[k])
                    && (k == m ==> self@[k]@ == start[k]@.insert(x)) by {
                    let i = choose|i: int| 0 <= i < keys.len() && keys[i] == k;
                    paired_index::<K, KeySet<T>>(keys, vals0, i);
                    paired_index::<K, KeySet<T>>(keys, self.vals@, i);
                    if i != at && k == m {
                        ascending_is_distinct::<K>(keys, i, at as int);
                    }
                }
                assert(self@.dom() =~= start.dom().insert(m));
                assert(pairs::<K, T>(self@) =~= pairs::<K, T>(start).insert((m, x)));
            }
        } else {
            *self = KeyMap { ids, vals };
            proof {
                K::order_laws(m, m, m);
                assert forall|i: int| 0 <= i < keys.len() implies keys[i] != m by {
                    assert(keys[i] == ids@[i].model());
                }
            }
            let mut fresh: KeySet<T> = KeySet::new();
            fresh.insert(item);
            self.insert(key, fresh);
            assert(pairs::<K, T>(self@) =~= pairs::<K, T>(start).insert((m, x)));
        }
    }

    /// Drops `item` from the set of `key`.
    pub fn unlink(&mut self, key: &K, item: &T)
        ensures
            pairs::<K, T>(final(self)@) == pairs::<K, T>(old(self)@).remove(
                (key.model(), item.model()),
            ),
            final(self)@.dom() == old(self)@.dom(),
    {
        let ghost m = key.model();
        let ghost x = item.model();
        let ghost start = self@;
        let mut whole = KeyMap { ids: Vec::new(), vals: Vec::new() };
        std::mem::swap(&mut whole, self);
        proof {
            use_type_invariant(&whole);
        }
        let KeyMap { ids, mut vals } = whole;
        let ghost keys = models(ids@);
        let (found, at) = locate(&ids, key);
        if found {
            let ghost vals0 = vals@;
            vals[at].remove(item);
            *self = KeyMap { ids, vals };
            proof {
                paired_index::<K, KeySet<T>>(keys, vals0, at as int);
                assert(keys.contains(m));
                assert forall|k: K::M| keys.contains(k) implies (k != m ==> #[trigger] self@[k] == start[k])
                    && (k == m ==> self@[k]@ == start[k]@.remove(x)) by {
                    let i = choose|i: int| 0 <= i < keys.len() && keys[i] == k;
                    paired_index::<K, KeySet<T>>(keys, vals0, i);
                    paired_index::<K, KeySet<T>>(keys, self.vals@, i);
                    if i != at && k == m {
                        ascending_is_distinct::<K>(keys, i, at as int);
                    }
                }
                assert(self@.dom() =~= start.dom());
                assert(pairs::<K, T>(self@) =~= pairs::<K, T>(start).remove((m, x)));
            }
        } else {
            *self = KeyMap { ids, vals };
            proof {
                K::order_laws(m, m, m);
                assert forall|i: int| 0 <= i < keys.len() implies keys[i] != m by {
                    assert(keys[i] == ids@[i].model());
                }
                assert(pairs::<K, T>(self@) =~= pairs::<K, T>(start).remove((m, x)));
            }
        }
    }
}

} // verus!
