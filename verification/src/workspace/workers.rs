//! What the configurations of workers name and refer to.
use vstd::prelude::*;

use crate::collections::KeySet;
use crate::data::{entry_models, entry_models_at, item_models, item_models_at, Data, DataModel};
use crate::lookup::{table_in, text_in, under};
use crate::order::Key;
use crate::text::same;

verus! {

/// The text that a table holds under a name.
pub open spec fn text_under(d: DataModel, name: Seq<char>) -> Option<Seq<char>> {
    match under(d, name) {
        Some(value) => text_in(value),
        None => None,
    }
}

/// The environments of a worker.
pub open spec fn environments(d: DataModel) -> Seq<(DataModel, DataModel)> {
    match under(d, "env"@) {
        Some(value) => match table_in(value) {
            Some(entries) => entries,
            None => Seq::empty(),
        },
        None => Seq::empty(),
    }
}

/// A name of the worker, in some environment or in none.
pub open spec fn is_worker_name(d: DataModel, name: Seq<char>) -> bool {
    text_under(d, "name"@) == Some(name) || exists|i: int|
        0 <= i < environments(d).len() && text_under((#[trigger] environments(d)[i]).1, "name"@) == Some(
            name,
        )
}

pub open spec fn worker_names(d: DataModel) -> Set<Seq<char>> {
    Set::new(|name: Seq<char>| is_worker_name(d, name))
}

/// A field that names another worker.
pub open spec fn is_reference_key(key: DataModel) -> bool {
    key == DataModel::Text("service"@) || key == DataModel::Text("script_name"@) || key
        == DataModel::Text("scriptName"@)
}

/// A value refers to the worker `name` somewhere inside.
pub open spec fn refers_to(d: DataModel, name: Seq<char>) -> bool
    decreases d,
{
    match d {
        DataModel::Table(entries) => exists|i: int|
            0 <= i < entries.len() && ((is_reference_key((#[trigger] entries[i]).0) && entries[i].1
                == DataModel::Text(name)) || refers_to(entries[i].1, name)),
        DataModel::List(items) => exists|i: int|
            0 <= i < items.len() && refers_to(#[trigger] items[i], name),
        _ => false,
    }
}

pub open spec fn entry_refers(e: (DataModel, DataModel), name: Seq<char>) -> bool {
    (is_reference_key(e.0) && e.1 == DataModel::Text(name)) || refers_to(e.1, name)
}

pub open spec fn worker_references(d: DataModel) -> Set<Seq<char>> {
    Set::new(|name: Seq<char>| refers_to(d, name))
}

fn read_text_under(d: &Data, name: &str) -> (r: Option<String>)
    ensures
        r.model() == text_under(d@, name@),
{
    match d.get(name) {
        Some(value) => match value.as_str() {
            Some(text) => Some(text.to_owned()),
            None => None,
        },
        None => None,
    }
}

/// The names of a worker.
pub fn list_worker_names(d: &Data) -> (r: KeySet<String>)
    ensures
        r@ == worker_names(d@),
{
    let mut out: KeySet<String> = KeySet::new();
    match read_text_under(d, "name") {
        Some(name) => {
            out.insert(name);
        },
        None => {},
    }
    match d.get("env") {
        Some(value) => match value.as_table() {
            Some(entries) => {
                let ghost all = entry_models(entries@);
                proof {
                    entry_models_at(entries@);
                }
                let mut i: usize = 0;
                while i < entries.len()
                    invariant
                        i <= entries.len(),
                        all == entry_models(entries@),
                        all.len() == entries.len(),
                        forall|k: int|
                            0 <= k < entries.len() ==> all[k] == ((#[trigger] entries@[k]).0@, entries@[k].1@),
                        forall|n: Seq<char>| #[trigger]
                            out@.contains(n) == (text_under(d@, "name"@) == Some(n) || exists|k: int|
                                0 <= k < i && text_under((#[trigger] all[k]).1, "name"@) == Some(n)),
                    decreases entries.len() - i,
                {
                    let ghost before = out@;
                    let found = read_text_under(&entries[i].1, "name");
                    let ghost f = found.model();
                    match found {
                        Some(name) => {
                            out.insert(name);
                        },
                        None => {},
                    }
                    proof {
                        assert forall|n: Seq<char>| #[trigger]
                            out@.contains(n) == (text_under(d@, "name"@) == Some(n) || exists|k: int|
                                0 <= k < i + 1 && text_under((#[trigger] all[k]).1, "name"@) == Some(n)) by {
                            assert(before.contains(n) == (text_under(d@, "name"@) == Some(n) || exists|
                                k: int,
                            |
                                0 <= k < i && text_under((#[trigger] all[k]).1, "name"@) == Some(n)));
                            assert(text_under(all[i as int].1, "name"@) == f);
                        }
                    }
                    i += 1;
                }
                assert(environments(d@) == all);
            },
            None => {},
        },
        None => {},
    }
    assert(out@ =~= worker_names(d@));
    out
}

fn is_reference(key: &Data) -> (r: bool)
    ensures
        r == is_reference_key(key@),
{
    match key {
        Data::Text(text) => same(text.as_str(), "service") || same(text.as_str(), "script_name")
            || same(text.as_str(), "scriptName"),
        _ => false,
    }
}

proof fn list_refers(items: Seq<DataModel>, name: Seq<char>)
    ensures
        refers_to(DataModel::List(items), name) == (exists|i: int|
            0 <= i < items.len() && refers_to(#[trigger] items[i], name)),
{
    let d = DataModel::List(items);
    if exists|i: int| 0 <= i < items.len() && refers_to(#[trigger] items[i], name) {
        let i = choose|i: int| 0 <= i < items.len() && refers_to(#[trigger] items[i], name);
        assert(d->List_0[i] == items[i]);
        assert(refers_to(d->List_0[i], name));
        assert(refers_to(d, name));
    }
}

/// The workers that a configuration refers to.
pub fn list_worker_references(d: &Data) -> (r: KeySet<String>)
    ensures
        r@ == worker_references(d@),
    decreases d,
{
    let mut out: KeySet<String> = KeySet::new();
    match d {
        Data::Table(entries) => {
            let ghost all = entry_models(entries@);
            proof {
                entry_models_at(entries@);
            }
            let mut i: usize = 0;
            while i < entries.len()
                invariant
                    i <= entries.len(),
                    *d == Data::Table(*entries),
                    all == entry_models(entries@),
                    all.len() == entries.len(),
                    forall|k: int|
                        0 <= k < entries.len() ==> all[k] == ((#[trigger] entries@[k]).0@, entries@[k].1@),
                    forall|n: Seq<char>| #[trigger]
                        out@.contains(n) == (exists|k: int|
                            0 <= k < i && entry_refers(#[trigger] all[k], n)),
                decreases entries.len() - i,
            {
                let ghost before = out@;
                assert(decreases_to!(*d => entries@[i as int].1)) by {
                    assert(decreases_to!(*d => d->Table_0));
                    assert(decreases_to!(*entries => entries@));
                    assert(decreases_to!(entries@ => entries@[i as int]));
                    assert(decreases_to!(entries@[i as int] => entries@[i as int].1));
                }
                let inner = list_worker_references(&entries[i].1);
                out.extend(&inner);
                if is_reference(&entries[i].0) {
                    match &entries[i].1 {
                        Data::Text(name) => {
                            out.insert(name.clone());
                        },
                        _ => {},
                    }
                }
                proof {
                    assert forall|n: Seq<char>| #[trigger]
                        out@.contains(n) == (exists|k: int|
                            0 <= k < i + 1 && entry_refers(#[trigger] all[k], n)) by {
                        assert(before.contains(n) == (exists|k: int|
                            0 <= k < i && entry_refers(#[trigger] all[k], n)));
                        assert(out@.contains(n) == (before.contains(n) || entry_refers(
                            all[i as int],
                            n,
                        )));
                    }
                }
                i += 1;
            }
            proof {
                assert(d@ == DataModel::Table(all));
                assert forall|n: Seq<char>| #[trigger] out@.contains(n) == refers_to(d@, n) by {
                    if refers_to(d@, n) {
                        let k = choose|k: int|
                            0 <= k < all.len() && ((is_reference_key((#[trigger] all[k]).0)
                                && all[k].1 == DataModel::Text(n)) || refers_to(all[k].1, n));
                        assert(entry_refers(all[k], n));
                    }
                    if out@.contains(n) {
                        let k = choose|k: int|
                            0 <= k < entries.len() && entry_refers(#[trigger] all[k], n);
                        assert(entry_refers(all[k], n));
                    }
                }
            }
        },
        Data::List(items) => {
            let ghost all = item_models(items@);
            proof {
                item_models_at(items@);
            }
            let mut i: usize = 0;
            while i < items.len()
                invariant
                    i <= items.len(),
                    *d == Data::List(*items),
                    all == item_models(items@),
                    all.len() == items.len(),
                    forall|k: int| 0 <= k < items.len() ==> all[k] == (#[trigger] items@[k])@,
                    forall|n: Seq<char>| #[trigger]
                        out@.contains(n) == (exists|k: int|
                            0 <= k < i && refers_to(#[trigger] all[k], n)),
                decreases items.len() - i,
            {
                let ghost before = out@;
                assert(decreases_to!(*d => items@[i as int])) by {
                    assert(decreases_to!(*d => d->List_0));
                    assert(decreases_to!(*items => items@));
                    assert(decreases_to!(items@ => items@[i as int]));
                }
                let inner = list_worker_references(&items[i]);
                out.extend(&inner);
                proof {
                    assert forall|n: Seq<char>| #[trigger]
                        out@.contains(n) == (exists|k: int|
                            0 <= k < i + 1 && refers_to(#[trigger] all[k], n)) by {
                        assert(before.contains(n) == (exists|k: int|
                            0 <= k < i && refers_to(#[trigger] all[k], n)));
                        assert(out@.contains(n) == (before.contains(n) || refers_to(all[i as int], n)));
                    }
                }
                i += 1;
            }
            proof {
                assert(d@ == DataModel::List(all));
                assert forall|n: Seq<char>| #[trigger] out@.contains(n) == refers_to(d@, n) by {
                    list_refers(all, n);
                }
            }
        },
        _ => {},
    }
    proof {
        assert(out@ =~= worker_references(d@));
    }
    out
}

} // verus!
