//! Looking into structured data.
use vstd::prelude::*;

use crate::collections::{first_from, first_from_fits};
use crate::data::{entry_models, entry_models_at, item_models, item_models_at, Data, DataModel};
use crate::text::same;

verus! {

/// The value below any tags.
pub open spec fn untagged(d: DataModel) -> DataModel
    decreases d,
{
    match d {
        DataModel::Tagged(_, inner) => untagged(*inner),
        _ => d,
    }
}

/// The text that a value is.
pub open spec fn text_in(d: DataModel) -> Option<Seq<char>> {
    match untagged(d) {
        DataModel::Text(text) => Some(text),
        _ => None,
    }
}

/// The entries of a table.
pub open spec fn table_in(d: DataModel) -> Option<Seq<(DataModel, DataModel)>> {
    match untagged(d) {
        DataModel::Table(entries) => Some(entries),
        _ => None,
    }
}

pub open spec fn has_name(entries: Seq<(DataModel, DataModel)>, name: Seq<char>) -> spec_fn(
    int,
) -> bool {
    |i: int| entries[i].0 == DataModel::Text(name)
}

/// The first entry with this name.
pub open spec fn entry_named(entries: Seq<(DataModel, DataModel)>, name: Seq<char>) -> Option<int> {
    first_from(has_name(entries, name), 0, entries.len() as int)
}

/// What a table holds under a name.
pub open spec fn under(d: DataModel, name: Seq<char>) -> Option<DataModel> {
    match table_in(d) {
        Some(entries) => match entry_named(entries, name) {
            Some(i) => Some(entries[i].1),
            None => None,
        },
        None => None,
    }
}

/// The names of a table's entries.
pub open spec fn names_in(d: DataModel) -> Set<Seq<char>> {
    match table_in(d) {
        Some(entries) => Set::new(
            |n: Seq<char>|
                exists|k: int|
                    0 <= k < entries.len() && (#[trigger] entries[k]).0 == DataModel::Text(n),
        ),
        None => Set::empty(),
    }
}

/// Two numbers that are written alike, or are both a zero with a point.
pub open spec fn same_number(a: Seq<char>, b: Seq<char>) -> bool {
    a == b || ((a == "0.0"@ || a == "-0.0"@) && (b == "0.0"@ || b == "-0.0"@))
}

/// Two values that hold the same, whatever the order of the entries in their tables.
pub open spec fn alike(a: DataModel, b: DataModel) -> bool
    decreases a,
{
    match (a, b) {
        (DataModel::Null, DataModel::Null) => true,
        (DataModel::Bool(x), DataModel::Bool(y)) => x == y,
        (DataModel::Number(x), DataModel::Number(y)) => same_number(x, y),
        (DataModel::Text(x), DataModel::Text(y)) => x == y,
        (DataModel::List(x), DataModel::List(y)) => x.len() == y.len() && forall|i: int|
            0 <= i < x.len() ==> alike(#[trigger] x[i], y[i]),
        (DataModel::Table(x), DataModel::Table(y)) => x.len() == y.len() && forall|i: int|
            0 <= i < x.len() ==> has_entry(#[trigger] x[i], y),
        (DataModel::Tagged(s, x), DataModel::Tagged(t, y)) => s == t && alike(*x, *y),
        _ => false,
    }
}

/// A table has an entry like this one.
pub open spec fn has_entry(e: (DataModel, DataModel), entries: Seq<(DataModel, DataModel)>) -> bool
    decreases e,
{
    exists|j: int|
        0 <= j < entries.len() && alike(e.0, (#[trigger] entries[j]).0) && alike(e.1, entries[j].1)
}

impl Data {
    /// The value below any tags.
    pub fn inner(&self) -> (r: &Data)
        ensures
            r@ == untagged(self@),
        decreases self,
    {
        match self {
            Data::Tagged(_, inner) => inner.inner(),
            _ => self,
        }
    }

    pub fn as_str(&self) -> (r: Option<&str>)
        ensures
            match r {
                Some(text) => text_in(self@) == Some(text@),
                None => text_in(self@) is None,
            },
    {
        match self.inner() {
            Data::Text(text) => Some(text.as_str()),
            _ => None,
        }
    }

    pub fn as_table(&self) -> (r: Option<&Vec<(Data, Data)>>)
        ensures
            match r {
                Some(entries) => table_in(self@) == Some(entry_models(entries@)),
                None => table_in(self@) is None,
            },
    {
        match self.inner() {
            Data::Table(entries) => Some(entries),
            _ => None,
        }
    }

    fn is_text(&self, text: &str) -> (r: bool)
        ensures
            r == (self@ == DataModel::Text(text@)),
    {
        match self {
            Data::Text(own) => same(own.as_str(), text),
            _ => false,
        }
    }

    pub fn get(&self, name: &str) -> (r: Option<&Data>)
        ensures
            match r {
                Some(d) => under(self@, name@) == Some(d@),
                None => under(self@, name@) is None,
            },
    {
        match self.as_table() {
            Some(entries) => {
                let ghost all = entry_models(entries@);
                let ghost p = has_name(all, name@);
                let ghost n = all.len() as int;
                proof {
                    entry_models_at(entries@);
                }
                let mut i: usize = 0;
                while i < entries.len()
                    invariant
                        i <= entries.len(),
                        all == entry_models(entries@),
                        p == has_name(all, name@),
                        n == all.len() == entries.len(),
                        forall|k: int|
                            0 <= k < entries.len() ==> all[k] == ((#[trigger] entries@[k]).0@, entries@[k].1@),
                        first_from(p, i as int, n) == first_from(p, 0, n),
                        table_in(self@) == Some(all),
                    decreases entries.len() - i,
                {
                    if entries[i].0.is_text(name) {
                        assert(p(i as int));
                        return Some(&entries[i].1);
                    }
                    assert(!p(i as int));
                    i += 1;
                }
                None
            },
            None => None,
        }
    }
}

fn numbers_agree(a: &str, b: &str) -> (r: bool)
    ensures
        r == same_number(a@, b@),
{
    same(a, b) || ((same(a, "0.0") || same(a, "-0.0")) && (same(b, "0.0") || same(b, "-0.0")))
}

fn find_entry(e: &(Data, Data), entries: &Vec<(Data, Data)>) -> (r: bool)
    ensures
        r == has_entry((e.0@, e.1@), entry_models(entries@)),
    decreases e, 0nat,
{
    let ghost all = entry_models(entries@);
    proof {
        entry_models_at(entries@);
    }
    let mut j: usize = 0;
    while j < entries.len()
        invariant
            j <= entries.len(),
            all == entry_models(entries@),
            all.len() == entries.len(),
            forall|k: int|
                0 <= k < entries.len() ==> all[k] == ((#[trigger] entries@[k]).0@, entries@[k].1@),
            forall|k: int|
                0 <= k < j ==> !(alike(e.0@, (#[trigger] all[k]).0) && alike(e.1@, all[k].1)),
        decreases entries.len() - j,
    {
        if same_data(&e.0, &entries[j].0) && same_data(&e.1, &entries[j].1) {
            assert(alike(e.0@, all[j as int].0) && alike(e.1@, all[j as int].1));
            return true;
        }
        j += 1;
    }
    false
}

/// Whether two values hold the same.
pub fn same_data(a: &Data, b: &Data) -> (r: bool)
    ensures
        r == alike(a@, b@),
    decreases a, 1nat,
{
    match (a, b) {
        (Data::Null, Data::Null) => true,
        (Data::Bool(x), Data::Bool(y)) => *x == *y,
        (Data::Number(x), Data::Number(y)) => numbers_agree(x.as_str(), y.as_str()),
        (Data::Text(x), Data::Text(y)) => same(x.as_str(), y.as_str()),
        (Data::List(x), Data::List(y)) => {
            let ghost all = item_models(x@);
            let ghost other = item_models(y@);
            proof {
                item_models_at(x@);
                item_models_at(y@);
            }
            if x.len() != y.len() {
                return false;
            }
            let mut i: usize = 0;
            while i < x.len()
                invariant
                    i <= x.len(),
                    x.len() == y.len(),
                    *a == Data::List(*x),
                    *b == Data::List(*y),
                    all == item_models(x@),
                    other == item_models(y@),
                    all.len() == x.len(),
                    other.len() == y.len(),
                    forall|k: int| 0 <= k < x.len() ==> all[k] == (#[trigger] x@[k])@,
                    forall|k: int| 0 <= k < y.len() ==> other[k] == (#[trigger] y@[k])@,
                    forall|k: int| 0 <= k < i ==> alike(#[trigger] all[k], other[k]),
                decreases x.len() - i,
            {
                assert(decreases_to!(*a => x@[i as int])) by {
                    assert(decreases_to!(*a => a->List_0));
                    assert(decreases_to!(*x => x@));
                    assert(decreases_to!(x@ => x@[i as int]));
                }
                if !same_data(&x[i], &y[i]) {
                    assert(!alike(all[i as int], other[i as int]));
                    return false;
                }
                i += 1;
            }
            true
        },
        (Data::Table(x), Data::Table(y)) => {
            let ghost all = entry_models(x@);
            let ghost other = entry_models(y@);
            proof {
                entry_models_at(x@);
                entry_models_at(y@);
            }
            if x.len() != y.len() {
                return false;
            }
            let mut i: usize = 0;
            while i < x.len()
                invariant
                    i <= x.len(),
                    x.len() == y.len(),
                    *a == Data::Table(*x),
                    *b == Data::Table(*y),
                    all == entry_models(x@),
                    other == entry_models(y@),
                    all.len() == x.len(),
                    other.len() == y.len(),
                    forall|k: int|
                        0 <= k < x.len() ==> all[k] == ((#[trigger] x@[k]).0@, x@[k].1@),
                    forall|k: int| 0 <= k < i ==> has_entry(#[trigger] all[k], other),
                decreases x.len() - i,
            {
                assert(decreases_to!(*a => x@[i as int])) by {
                    assert(decreases_to!(*a => a->Table_0));
                    assert(decreases_to!(*x => x@));
                    assert(decreases_to!(x@ => x@[i as int]));
                }
                if !find_entry(&x[i], y) {
                    assert(!has_entry(all[i as int], other));
                    return false;
                }
                i += 1;
            }
            true
        },
        (Data::Tagged(s, x), Data::Tagged(t, y)) => same(s.as_str(), t.as_str()) && same_data(x, y),
        _ => false,
    }
}

/// Every value holds the same as itself.
pub proof fn values_are_like_themselves(d: DataModel)
    ensures
        alike(d, d),
    decreases d,
{
    match d {
        DataModel::List(items) => {
            assert forall|i: int| 0 <= i < items.len() implies alike(#[trigger] items[i], items[i]) by {
                values_are_like_themselves(items[i]);
            }
        },
        DataModel::Table(entries) => {
            assert forall|i: int| 0 <= i < entries.len() implies has_entry(
                #[trigger] entries[i],
                entries,
            ) by {
                values_are_like_themselves(entries[i].0);
                values_are_like_themselves(entries[i].1);
                assert(alike(entries[i].0, entries[i].0) && alike(entries[i].1, entries[i].1));
            }
        },
        DataModel::Tagged(_, inner) => {
            values_are_like_themselves(*inner);
        },
        _ => {},
    }
}

pub(crate) proof fn names_are_finite(d: DataModel)
    ensures
        names_in(d).finite(),
{
    if let Some(entries) = table_in(d) {
        let all = entries.map_values(|e: (DataModel, DataModel)| e.0->Text_0);
        vstd::seq_lib::seq_to_set_is_finite(all);
        assert forall|n: Seq<char>| names_in(d).contains(n) implies all.to_set().contains(n) by {
            let k = choose|k: int|
                0 <= k < entries.len() && (#[trigger] entries[k]).0 == DataModel::Text(n);
            assert(all[k] == n);
        }
        vstd::set_lib::lemma_len_subset(names_in(d), all.to_set());
    }
}

/// A table gives the value of the first entry with a name, below any tags, and nothing where no
/// entry has the name.
pub proof fn tables_give_what_stands_under_a_name(
    entries: Seq<(DataModel, DataModel)>,
    name: Seq<char>,
    tag: Seq<char>,
)
    ensures
        forall|i: int|
            0 <= i < entries.len() && (#[trigger] entries[i]).0 == DataModel::Text(name) && (forall|
                j: int,
            | #![trigger entries[j]] 0 <= j < i ==> entries[j].0 != DataModel::Text(name)) ==> under(
                DataModel::Table(entries),
                name,
            ) == Some(entries[i].1),
        (forall|i: int|
            0 <= i < entries.len() ==> (#[trigger] entries[i]).0 != DataModel::Text(name)) ==> under(
            DataModel::Table(entries),
            name,
        ) is None,
        under(DataModel::Tagged(tag, Box::new(DataModel::Table(entries))), name) == under(
            DataModel::Table(entries),
            name,
        ),
{
    let p = has_name(entries, name);
    first_from_fits(p, 0, entries.len() as int);
    reveal_with_fuel(untagged, 2);
    assert forall|i: int| 0 <= i < entries.len() implies #[trigger] p(i) == (entries[i].0
        == DataModel::Text(name)) by {}
    assert forall|i: int|
        0 <= i < entries.len() && (#[trigger] entries[i]).0 == DataModel::Text(name) && (forall|
            j: int,
        | #![trigger entries[j]] 0 <= j < i ==> entries[j].0 != DataModel::Text(name)) implies under(
        DataModel::Table(entries),
        name,
    ) == Some(entries[i].1) by {
        assert(p(i));
        let k = entry_named(entries, name)->0;
        assert(p(k) == (entries[k].0 == DataModel::Text(name)));
    }
}

/// Plain values hold the same exactly where they are equal; of numbers the two zeros with a point
/// hold the same, too.
pub proof fn plain_values_are_alike_where_they_are_equal(
    a: DataModel,
    b: DataModel,
    x: Seq<char>,
    y: Seq<char>,
)
    ensures
        (a is Null || a is Bool || a is Text) ==> (alike(a, b) == (a == b)),
        (b is Null || b is Bool || b is Text) ==> (alike(a, b) == (a == b)),
        alike(DataModel::Number(x), DataModel::Number(y)) == (x == y || (x == "0.0"@ && y
            == "-0.0"@) || (x == "-0.0"@ && y == "0.0"@)),
        a is Number && !(b is Number) ==> !alike(a, b),
        a is List && !(b is List) ==> !alike(a, b),
        a is Table && !(b is Table) ==> !alike(a, b),
        a is Tagged && !(b is Tagged) ==> !alike(a, b),
{
}

/// Lists that hold the same are as long as one another, and hold the same at every place.
pub proof fn lists_are_alike_place_by_place(x: Seq<DataModel>, y: Seq<DataModel>)
    ensures
        alike(DataModel::List(x), DataModel::List(y)) ==> x.len() == y.len(),
        x.len() == y.len() && (forall|i: int|
            #![trigger x[i]]
            #![trigger y[i]]
            0 <= i < x.len() ==> x[i] == y[i]) ==> alike(DataModel::List(x), DataModel::List(y)),
        forall|i: int|
            alike(DataModel::List(x), DataModel::List(y)) && 0 <= i < x.len() ==> alike(
                #[trigger] x[i],
                y[i],
            ),
{
    if x.len() == y.len() && forall|i: int| 0 <= i < x.len() ==> #[trigger] x[i] == y[i] {
        assert(x =~= y);
        values_are_like_themselves(DataModel::List(x));
    }
}

/// Tables hold the same in any order of their entries; of tables that hold the same each has
/// under a name what the other has under it.
pub proof fn tables_are_alike_in_any_order(
    x: Seq<(DataModel, DataModel)>,
    y: Seq<(DataModel, DataModel)>,
)
    ensures
        x.len() == y.len() && (forall|i: int|
            0 <= i < x.len() ==> y.contains(#[trigger] x[i])) ==> alike(
            DataModel::Table(x),
            DataModel::Table(y),
        ),
        alike(DataModel::Table(x), DataModel::Table(y)) ==> x.len() == y.len() && forall|i: int|
            0 <= i < x.len() && (#[trigger] x[i]).0 is Text ==> exists|j: int|
                0 <= j < y.len() && (#[trigger] y[j]).0 == x[i].0 && alike(x[i].1, y[j].1),
{
    if x.len() == y.len() && forall|i: int| 0 <= i < x.len() ==> y.contains(#[trigger] x[i]) {
        assert forall|i: int| 0 <= i < x.len() implies has_entry(#[trigger] x[i], y) by {
            let j = choose|j: int| 0 <= j < y.len() && y[j] == x[i];
            values_are_like_themselves(x[i].0);
            values_are_like_themselves(x[i].1);
            assert(alike(x[i].0, y[j].0) && alike(x[i].1, y[j].1));
        }
    }
    if alike(DataModel::Table(x), DataModel::Table(y)) {
        assert forall|i: int| 0 <= i < x.len() && (#[trigger] x[i]).0 is Text implies exists|j: int|
            0 <= j < y.len() && (#[trigger] y[j]).0 == x[i].0 && alike(x[i].1, y[j].1) by {
            let name = x[i].0->Text_0;
            assert(has_entry(x[i], y));
            let j = choose|j: int|
                0 <= j < y.len() && alike(x[i].0, (#[trigger] y[j]).0) && alike(x[i].1, y[j].1);
            plain_values_are_alike_where_they_are_equal(x[i].0, y[j].0, name, name);
            assert(y[j].0 == x[i].0);
        }
    }
}

} // verus!
