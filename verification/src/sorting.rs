//! Stable sorting.
use vstd::prelude::*;

use crate::collections::{first_from, first_from_fits};
use crate::order::{models, Key, Rank};

verus! {

/// No key comes before one in front of it.
pub open spec fn ordered<K: Key>(keys: Seq<K::M>) -> bool {
    forall|i: int, j: int|
        0 <= i < j < keys.len() ==> !K::precedes(#[trigger] keys[j], #[trigger] keys[i])
}

pub open spec fn is_behind<K: Key>(keys: Seq<K::M>, key: K::M) -> spec_fn(int) -> bool {
    |i: int| K::precedes(key, keys[i])
}

/// Where `key` is put among `keys`: in front of the first that comes after it.
pub open spec fn place<K: Key>(keys: Seq<K::M>, key: K::M) -> int {
    match first_from(is_behind::<K>(keys, key), 0, keys.len() as int) {
        Some(i) => i,
        None => keys.len() as int,
    }
}

/// The first `n` items, each put behind those that came earlier and have no greater key.
pub open spec fn sorted_pairs<K: Key, T>(keys: Seq<K::M>, items: Seq<T>, n: int) -> (
    Seq<K::M>,
    Seq<T>,
)
    decreases n,
{
    if n <= 0 {
        (Seq::empty(), Seq::empty())
    } else {
        let front = sorted_pairs::<K, T>(keys, items, n - 1);
        let i = place::<K>(front.0, keys[n - 1]);
        (front.0.insert(i, keys[n - 1]), front.1.insert(i, items[n - 1]))
    }
}

/// The items in the order of their keys; items with the same key keep their order.
pub open spec fn sorted_by<K: Key, T>(keys: Seq<K::M>, items: Seq<T>) -> Seq<T> {
    sorted_pairs::<K, T>(keys, items, keys.len() as int).1
}

/// The keys in order.
pub open spec fn sorted<K: Key>(keys: Seq<K::M>) -> Seq<K::M> {
    sorted_pairs::<K, K::M>(keys, keys, keys.len() as int).0
}

pub proof fn place_in_range<K: Key>(keys: Seq<K::M>, key: K::M)
    ensures
        0 <= place::<K>(keys, key) <= keys.len(),
{
    first_from_fits(is_behind::<K>(keys, key), 0, keys.len() as int);
}

proof fn place_fits<K: Key>(keys: Seq<K::M>, key: K::M)
    requires
        ordered::<K>(keys),
    ensures
        0 <= place::<K>(keys, key) <= keys.len(),
        forall|i: int|
            0 <= i < place::<K>(keys, key) ==> !K::precedes(key, #[trigger] keys[i]),
        forall|i: int|
            place::<K>(keys, key) <= i < keys.len() ==> K::precedes(key, #[trigger] keys[i]),
{
    let p = is_behind::<K>(keys, key);
    first_from_fits(p, 0, keys.len() as int);
    let at = place::<K>(keys, key);
    assert forall|i: int| 0 <= i < at implies !K::precedes(key, #[trigger] keys[i]) by {
        assert(!p(i));
    }
    assert forall|i: int| at <= i < keys.len() implies K::precedes(key, #[trigger] keys[i]) by {
        assert(p(at));
        if at < i {
            K::order_laws(key, keys[at], keys[i]);
            K::order_laws(keys[at], keys[i], key);
            assert(!K::precedes(keys[i], keys[at]));
        }
    }
}

proof fn insertion_keeps_order<K: Key>(keys: Seq<K::M>, key: K::M)
    requires
        ordered::<K>(keys),
    ensures
        ordered::<K>(keys.insert(place::<K>(keys, key), key)),
{
    place_fits::<K>(keys, key);
    let at = place::<K>(keys, key);
    let after = keys.insert(at, key);
    assert forall|i: int, j: int| 0 <= i < j < after.len() implies !K::precedes(
        #[trigger] after[j],
        #[trigger] after[i],
    ) by {
        let i0 = if i < at { i } else { i - 1 };
        let j0 = if j < at { j } else { j - 1 };
        if i != at && j != at {
            assert(!K::precedes(keys[j0], keys[i0]));
        } else if i == at {
            assert(K::precedes(key, keys[j0]));
            K::order_laws(key, keys[j0], key);
        }
    }
}

/// Sorting puts keys in order and loses or invents nothing.
pub proof fn sorting_orders<K: Key, T>(keys: Seq<K::M>, items: Seq<T>, n: int)
    requires
        0 <= n <= keys.len(),
        keys.len() == items.len(),
    ensures
        ordered::<K>(sorted_pairs::<K, T>(keys, items, n).0),
        sorted_pairs::<K, T>(keys, items, n).0.len() == n,
        sorted_pairs::<K, T>(keys, items, n).1.len() == n,
        sorted_pairs::<K, T>(keys, items, n).0.to_multiset() == keys.take(n).to_multiset(),
        sorted_pairs::<K, T>(keys, items, n).1.to_multiset() == items.take(n).to_multiset(),
    decreases n,
{
    broadcast use vstd::seq_lib::group_to_multiset_ensures;

    if n > 0 {
        sorting_orders::<K, T>(keys, items, n - 1);
        let front = sorted_pairs::<K, T>(keys, items, n - 1);
        insertion_keeps_order::<K>(front.0, keys[n - 1]);
        place_fits::<K>(front.0, keys[n - 1]);
        assert(keys.take(n) =~= keys.take(n - 1).push(keys[n - 1]));
        assert(items.take(n) =~= items.take(n - 1).push(items[n - 1]));
    } else {
        assert(keys.take(0) =~= Seq::<K::M>::empty());
        assert(items.take(0) =~= Seq::<T>::empty());
    }
}

/// Sorting and then reading off gives the same as reading off and then sorting.
pub proof fn sorting_maps<K: Key, T, U>(keys: Seq<K::M>, items: Seq<T>, f: spec_fn(T) -> U, n: int)
    requires
        0 <= n <= keys.len(),
        keys.len() == items.len(),
    ensures
        sorted_pairs::<K, U>(keys, items.map_values(f), n).1 == sorted_pairs::<K, T>(
            keys,
            items,
            n,
        ).1.map_values(f),
        sorted_pairs::<K, U>(keys, items.map_values(f), n).0 == sorted_pairs::<K, T>(keys, items, n).0,
    decreases n,
{
    let mapped = items.map_values(f);
    if n > 0 {
        sorting_maps::<K, T, U>(keys, items, f, n - 1);
        sorting_orders::<K, T>(keys, items, n - 1);
        let front = sorted_pairs::<K, T>(keys, items, n - 1);
        let i = place::<K>(front.0, keys[n - 1]);
        place_in_range::<K>(front.0, keys[n - 1]);
        assert(front.1.insert(i, items[n - 1]).map_values(f) =~= front.1.map_values(f).insert(
            i,
            mapped[n - 1],
        ));
    } else {
        assert(sorted_pairs::<K, U>(keys, mapped, n).1 =~= sorted_pairs::<K, T>(
            keys,
            items,
            n,
        ).1.map_values(f));
    }
}

fn find_place<K: Key>(keys: &Vec<K>, key: &K) -> (r: usize)
    requires
        ordered::<K>(models(keys@)),
    ensures
        r == place::<K>(models(keys@), key.model()),
        r <= keys.len(),
{
    let ghost all = models(keys@);
    let ghost m = key.model();
    let mut low: usize = 0;
    let mut high: usize = keys.len();
    proof {
        place_fits::<K>(all, m);
    }
    while low < high
        invariant
            low <= high <= keys.len(),
            all == models(keys@),
            m == key.model(),
            low <= place::<K>(all, m) <= high,
            forall|i: int| 0 <= i < place::<K>(all, m) ==> !K::precedes(m, #[trigger] all[i]),
            forall|i: int|
                place::<K>(all, m) <= i < all.len() ==> K::precedes(m, #[trigger] all[i]),
        decreases high - low,
    {
        let mid: usize = low + (high - low) / 2;
        assert(all[mid as int] == keys@[mid as int].model());
        let after = match key.rank(&keys[mid]) {
            Rank::Before => true,
            _ => false,
        };
        proof {
            K::order_laws(m, all[mid as int], m);
        }
        if after {
            high = mid;
        } else {
            low = mid + 1;
        }
    }
    low
}

pub open spec fn keys_of<K: Key, T>(pairs: Seq<(K, T)>) -> Seq<K::M> {
    pairs.map_values(|p: (K, T)| p.0.model())
}

pub open spec fn items_of<K, T>(pairs: Seq<(K, T)>) -> Seq<T> {
    pairs.map_values(|p: (K, T)| p.1)
}

/// Puts items in the order of their keys.
pub fn sort_by_key<K: Key, T>(pairs: Vec<(K, T)>) -> (r: Vec<T>)
    ensures
        r@ == sorted_by::<K, T>(keys_of(pairs@), items_of(pairs@)),
{
    let ghost all = keys_of(pairs@);
    let ghost whole = items_of(pairs@);
    let ghost given = pairs@;
    let mut done: Vec<K> = Vec::new();
    let mut out: Vec<T> = Vec::new();
    proof {
        assert(models(done@) =~= sorted_pairs::<K, T>(all, whole, 0).0);
        assert(out@ =~= sorted_pairs::<K, T>(all, whole, 0).1);
    }
    for pair in it: pairs
        invariant
            it.seq() == given,
            all == keys_of(given),
            whole == items_of(given),
            models(done@) == sorted_pairs::<K, T>(all, whole, it.index() as int).0,
            out@ == sorted_pairs::<K, T>(all, whole, it.index() as int).1,
    {
        let ghost n = it.index() as int;
        proof {
            sorting_orders::<K, T>(all, whole, n);
        }
        let (key, item) = pair;
        assert(key.model() == all[n]);
        assert(item == whole[n]);
        let at = find_place(&done, &key);
        let ghost before = models(done@);
        done.insert(at, key);
        out.insert(at, item);
        assert(models(done@) =~= before.insert(at as int, all[n]));
    }
    out
}

/// Puts keys in order.
pub fn sort<K: Key>(keys: Vec<K>) -> (r: Vec<K>)
    ensures
        models(r@) == sorted::<K>(models(keys@)),
{
    let ghost all = models(keys@);
    let ghost given = keys@;
    let mut out: Vec<K> = Vec::new();
    assert(models(out@) =~= sorted_pairs::<K, K::M>(all, all, 0).0);
    for key in it: keys
        invariant
            it.seq() == given,
            all == models(given),
            models(out@) == sorted_pairs::<K, K::M>(all, all, it.index() as int).0,
    {
        let ghost n = it.index() as int;
        proof {
            sorting_orders::<K, K::M>(all, all, n);
        }
        assert(key.model() == all[n]);
        let at = find_place(&out, &key);
        let ghost before = models(out@);
        out.insert(at, key);
        assert(models(out@) =~= before.insert(at as int, all[n]));
    }
    out
}

} // verus!
