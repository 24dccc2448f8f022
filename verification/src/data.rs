//! Structured data as JSON, JSON5 and YAML files hold it.
use vstd::prelude::*;

use crate::collections::{first_from, KeySet};
use crate::lookup::{has_name, names_in, under};
use crate::text::same;

verus! {

/// A value of structured data, as mathematics: numbers as they are written, tables in order.
pub ghost enum DataModel {
    Null,
    Bool(bool),
    Number(Seq<char>),
    Text(Seq<char>),
    List(Seq<DataModel>),
    Table(Seq<(DataModel, DataModel)>),
    Tagged(Seq<char>, Box<DataModel>),
}

/// A value of structured data.
pub enum Data {
    Null,
    Bool(bool),
    Number(String),
    Text(String),
    List(Vec<Data>),
    Table(Vec<(Data, Data)>),
    Tagged(String, Box<Data>),
}

impl View for Data {
    type V = DataModel;

    open spec fn view(&self) -> DataModel {
        content(*self)
    }
}

/// What a value holds.
pub open spec fn content(data: Data) -> DataModel
        decreases data,
    {
        match data {
            Data::Null => DataModel::Null,
            Data::Bool(b) => DataModel::Bool(b),
            Data::Number(text) => DataModel::Number(text@),
            Data::Text(text) => DataModel::Text(text@),
            Data::List(items) => DataModel::List(item_models(items@)),
            Data::Table(entries) => DataModel::Table(entry_models(entries@)),
            Data::Tagged(tag, inner) => DataModel::Tagged(tag@, Box::new(content(*inner))),
        }
    }


pub open spec fn item_models(items: Seq<Data>) -> Seq<DataModel>
    decreases items,
{
    if items.len() == 0 {
        Seq::empty()
    } else {
        item_models(items.drop_last()).push(content(items.last()))
    }
}

pub open spec fn entry_models(entries: Seq<(Data, Data)>) -> Seq<(DataModel, DataModel)>
    decreases entries,
{
    if entries.len() == 0 {
        Seq::empty()
    } else {
        entry_models(entries.drop_last()).push((content(entries.last().0), content(entries.last().1)))
    }
}

pub proof fn item_models_at(items: Seq<Data>)
    ensures
        item_models(items).len() == items.len(),
        forall|i: int| 0 <= i < items.len() ==> item_models(items)[i] == (#[trigger] items[i])@,
    decreases items.len(),
{
    if items.len() > 0 {
        let front = items.drop_last();
        item_models_at(front);
        assert forall|i: int| 0 <= i < items.len() implies item_models(items)[i] == (
        #[trigger] items[i])@ by {
            if i < front.len() {
                assert(front[i] == items[i]);
            }
        }
    }
}

pub proof fn entry_models_at(entries: Seq<(Data, Data)>)
    ensures
        entry_models(entries).len() == entries.len(),
        forall|i: int|
            0 <= i < entries.len() ==> entry_models(entries)[i] == ((#[trigger] entries[i]).0@, entries[i].1@),
    decreases entries.len(),
{
    if entries.len() > 0 {
        let front = entries.drop_last();
        entry_models_at(front);
        assert forall|i: int| 0 <= i < entries.len() implies entry_models(entries)[i] == (
            (#[trigger] entries[i]).0@,
            entries[i].1@,
        ) by {
            if i < front.len() {
                assert(front[i] == entries[i]);
            }
        }
    }
}

impl Data {
    pub fn copy(&self) -> (r: Data)
        ensures
            r@ == self@,
        decreases self,
    {
        match self {
            Data::Null => Data::Null,
            Data::Bool(b) => Data::Bool(*b),
            Data::Number(text) => Data::Number(text.clone()),
            Data::Text(text) => Data::Text(text.clone()),
            Data::List(items) => {
                let mut out: Vec<Data> = Vec::new();
                let mut i: usize = 0;
                while i < items.len()
                    invariant
                        i <= items.len(),
                        *self == Data::List(*items),
                        out.len() == i,
                        forall|k: int| 0 <= k < i ==> (#[trigger] out@[k])@ == items@[k]@,
                    decreases items.len() - i,
                {
                    assert(decreases_to!(*self => items@[i as int])) by {
                        assert(decreases_to!(*self => self->List_0));
                        assert(decreases_to!(*items => items@));
                        assert(decreases_to!(items@ => items@[i as int]));
                    }
                    out.push(items[i].copy());
                    i += 1;
                }
                proof {
                    item_models_at(items@);
                    item_models_at(out@);
                    let x = item_models(out@);
                    let y = item_models(items@);
                    assert forall|k: int| 0 <= k < x.len() implies x[k] == y[k] by {
                        assert(out@[k]@ == items@[k]@);
                    }
                    assert(x =~= y);
                }
                Data::List(out)
            },
            Data::Table(entries) => {
                let mut out: Vec<(Data, Data)> = Vec::new();
                let mut i: usize = 0;
                while i < entries.len()
                    invariant
                        i <= entries.len(),
                        *self == Data::Table(*entries),
                        out.len() == i,
                        forall|k: int|
                            0 <= k < i ==> (#[trigger] out@[k]).0@ == entries@[k].0@ && out@[k].1@
                                == entries@[k].1@,
                    decreases entries.len() - i,
                {
                    assert(decreases_to!(*self => entries@[i as int].0) && decreases_to!(*self => entries@[i as int].1))
                        by {
                        assert(decreases_to!(*self => self->Table_0));
                        assert(decreases_to!(*entries => entries@));
                        assert(decreases_to!(entries@ => entries@[i as int]));
                        assert(decreases_to!(entries@[i as int] => entries@[i as int].0));
                        assert(decreases_to!(entries@[i as int] => entries@[i as int].1));
                    }
                    out.push((entries[i].0.copy(), entries[i].1.copy()));
                    i += 1;
                }
                proof {
                    entry_models_at(entries@);
                    entry_models_at(out@);
                    let x = entry_models(out@);
                    let y = entry_models(entries@);
                    assert forall|k: int| 0 <= k < x.len() implies x[k] == y[k] by {
                        assert(out@[k].0@ == entries@[k].0@);
                    }
                    assert(x =~= y);
                }
                Data::Table(out)
            },
            Data::Tagged(tag, inner) => Data::Tagged(tag.clone(), Box::new(inner.copy())),
        }
    }
}

/// What a JSON value holds.
pub uninterp spec fn json_content(value: serde_json::Value) -> DataModel;

#[verifier::external_type_specification]
#[verifier::external_body]
pub struct ExJsonValue(serde_json::Value);

/// One level of a JSON value.
enum JsonPart<'a> {
    Null,
    Bool(bool),
    Number(String),
    Text(String),
    List(Vec<&'a serde_json::Value>),
    Table(Vec<(String, &'a serde_json::Value)>),
}

pub open spec fn json_contents(items: Seq<&serde_json::Value>) -> Seq<DataModel> {
    items.map_values(|v: &serde_json::Value| json_content(*v))
}

pub open spec fn json_entries(entries: Seq<(String, &serde_json::Value)>) -> Seq<
    (DataModel, DataModel),
> {
    entries.map_values(
        |e: (String, &serde_json::Value)| (DataModel::Text(e.0@), json_content(*e.1)),
    )
}

impl<'a> JsonPart<'a> {
    spec fn content(self) -> DataModel {
        match self {
            JsonPart::Null => DataModel::Null,
            JsonPart::Bool(b) => DataModel::Bool(b),
            JsonPart::Number(text) => DataModel::Number(text@),
            JsonPart::Text(text) => DataModel::Text(text@),
            JsonPart::List(items) => DataModel::List(json_contents(items@)),
            JsonPart::Table(entries) => DataModel::Table(json_entries(entries@)),
        }
    }
}

/// Takes the variants of `serde_json::Value` apart: a number as its `Display` form, the items of
/// an array in order, the members of an object in the order in which it lists them.
#[verifier::external_body]
fn json_part<'a>(value: &'a serde_json::Value) -> (r: JsonPart<'a>)
    ensures
        r.content() == json_content(*value),
{
    match value {
        serde_json::Value::Null => JsonPart::Null,
        serde_json::Value::Bool(b) => JsonPart::Bool(*b),
        serde_json::Value::Number(number) => JsonPart::Number(number.to_string()),
        serde_json::Value::String(text) => JsonPart::Text(text.clone()),
        serde_json::Value::Array(items) => JsonPart::List(items.iter().collect()),
        serde_json::Value::Object(map) => JsonPart::Table(
            map.iter().map(|(key, member)| (key.clone(), member)).collect(),
        ),
    }
}

/// The library's own form of a JSON value.
pub fn from_json(value: &serde_json::Value) -> (r: Data)
    ensures
        r@ == json_content(*value),
    decreases json_content(*value),
{
    let ghost whole = json_content(*value);
    match json_part(value) {
        JsonPart::Null => Data::Null,
        JsonPart::Bool(b) => Data::Bool(b),
        JsonPart::Number(text) => Data::Number(text),
        JsonPart::Text(text) => Data::Text(text),
        JsonPart::List(items) => {
            let ghost all = json_contents(items@);
            let mut out: Vec<Data> = Vec::new();
            let mut i: usize = 0;
            while i < items.len()
                invariant
                    i <= items.len(),
                    all == json_contents(items@),
                    whole == json_content(*value),
                    whole == DataModel::List(all),
                    item_models(out@) =~= all.take(i as int),
                decreases items.len() - i,
            {
                assert(all[i as int] == json_content(*items@[i as int]));
                assert(decreases_to!(whole => all[i as int])) by {
                    assert(decreases_to!(whole => whole->List_0));
                    assert(decreases_to!(all => all[i as int]));
                }
                let item = from_json(items[i]);
                let ghost before = out@;
                out.push(item);
                proof {
                    assert(out@.drop_last() =~= before);
                    assert(all.take(i + 1) =~= all.take(i as int).push(all[i as int]));
                    assert(item_models(out@) == item_models(before).push(content(item)));
                }
                i += 1;
            }
            assert(all.take(i as int) =~= all);
            Data::List(out)
        },
        JsonPart::Table(entries) => {
            let ghost all = json_entries(entries@);
            let mut out: Vec<(Data, Data)> = Vec::new();
            let mut i: usize = 0;
            while i < entries.len()
                invariant
                    i <= entries.len(),
                    all == json_entries(entries@),
                    whole == json_content(*value),
                    whole == DataModel::Table(all),
                    entry_models(out@) =~= all.take(i as int),
                decreases entries.len() - i,
            {
                assert(all[i as int] == (
                    DataModel::Text(entries@[i as int].0@),
                    json_content(*entries@[i as int].1),
                ));
                assert(decreases_to!(whole => all[i as int].1)) by {
                    assert(decreases_to!(whole => whole->Table_0));
                    assert(decreases_to!(all => all[i as int]));
                    assert(decreases_to!(all[i as int] => all[i as int].1));
                }
                let member = from_json(entries[i].1);
                let ghost before = out@;
                out.push((Data::Text(entries[i].0.clone()), member));
                proof {
                    assert(out@.drop_last() =~= before);
                    assert(all.take(i + 1) =~= all.take(i as int).push(all[i as int]));
                    assert(content(out@.last().0) == all[i as int].0);
                }
                i += 1;
            }
            assert(all.take(i as int) =~= all);
            Data::Table(out)
        },
    }
}

/// What a YAML value holds.
pub uninterp spec fn yaml_content(value: serde_yaml::Value) -> DataModel;

#[verifier::external_type_specification]
#[verifier::external_body]
pub struct ExYamlValue(serde_yaml::Value);

/// One level of a YAML value.
enum YamlPart<'a> {
    Null,
    Bool(bool),
    Number(String),
    Text(String),
    List(Vec<&'a serde_yaml::Value>),
    Table(Vec<(&'a serde_yaml::Value, &'a serde_yaml::Value)>),
    Tagged(String, &'a serde_yaml::Value),
}

pub open spec fn yaml_contents(items: Seq<&serde_yaml::Value>) -> Seq<DataModel> {
    items.map_values(|v: &serde_yaml::Value| yaml_content(*v))
}

pub open spec fn yaml_entries(entries: Seq<(&serde_yaml::Value, &serde_yaml::Value)>) -> Seq<
    (DataModel, DataModel),
> {
    entries.map_values(
        |e: (&serde_yaml::Value, &serde_yaml::Value)| (yaml_content(*e.0), yaml_content(*e.1)),
    )
}

impl<'a> YamlPart<'a> {
    spec fn content(self) -> DataModel {
        match self {
            YamlPart::Null => DataModel::Null,
            YamlPart::Bool(b) => DataModel::Bool(b),
            YamlPart::Number(text) => DataModel::Number(text@),
            YamlPart::Text(text) => DataModel::Text(text@),
            YamlPart::List(items) => DataModel::List(yaml_contents(items@)),
            YamlPart::Table(entries) => DataModel::Table(yaml_entries(entries@)),
            YamlPart::Tagged(tag, inner) => DataModel::Tagged(
                tag@,
                Box::new(yaml_content(*inner)),
            ),
        }
    }
}

/// Takes the variants of `serde_yaml::Value` apart: a number and a tag as their `Display` forms,
/// the items of a sequence and the entries of a mapping in order.
#[verifier::external_body]
fn yaml_part<'a>(value: &'a serde_yaml::Value) -> (r: YamlPart<'a>)
    ensures
        r.content() == yaml_content(*value),
{
    match value {
        serde_yaml::Value::Null => YamlPart::Null,
        serde_yaml::Value::Bool(b) => YamlPart::Bool(*b),
        serde_yaml::Value::Number(number) => YamlPart::Number(number.to_string()),
        serde_yaml::Value::String(text) => YamlPart::Text(text.clone()),
        serde_yaml::Value::Sequence(items) => YamlPart::List(items.iter().collect()),
        serde_yaml::Value::Mapping(map) => YamlPart::Table(map.iter().collect()),
        serde_yaml::Value::Tagged(t) => YamlPart::Tagged(t.tag.to_string(), &t.value),
    }
}

/// The library's own form of a YAML value.
pub fn from_yaml(value: &serde_yaml::Value) -> (r: Data)
    ensures
        r@ == yaml_content(*value),
    decreases yaml_content(*value),
{
    let ghost whole = yaml_content(*value);
    match yaml_part(value) {
        YamlPart::Null => Data::Null,
        YamlPart::Bool(b) => Data::Bool(b),
        YamlPart::Number(text) => Data::Number(text),
        YamlPart::Text(text) => Data::Text(text),
        YamlPart::List(items) => {
            let ghost all = yaml_contents(items@);
            let mut out: Vec<Data> = Vec::new();
            let mut i: usize = 0;
            while i < items.len()
                invariant
                    i <= items.len(),
                    all == yaml_contents(items@),
                    whole == yaml_content(*value),
                    whole == DataModel::List(all),
                    item_models(out@) =~= all.take(i as int),
                decreases items.len() - i,
            {
                assert(all[i as int] == yaml_content(*items@[i as int]));
                assert(decreases_to!(whole => all[i as int])) by {
                    assert(decreases_to!(whole => whole->List_0));
                    assert(decreases_to!(all => all[i as int]));
                }
                let item = from_yaml(items[i]);
                let ghost before = out@;
                out.push(item);
                proof {
                    assert(out@.drop_last() =~= before);
                    assert(all.take(i + 1) =~= all.take(i as int).push(all[i as int]));
                    assert(item_models(out@) == item_models(before).push(content(item)));
                }
                i += 1;
            }
            assert(all.take(i as int) =~= all);
            Data::List(out)
        },
        YamlPart::Table(entries) => {
            let ghost all = yaml_entries(entries@);
            let mut out: Vec<(Data, Data)> = Vec::new();
            let mut i: usize = 0;
            while i < entries.len()
                invariant
                    i <= entries.len(),
                    all == yaml_entries(entries@),
                    whole == yaml_content(*value),
                    whole == DataModel::Table(all),
                    entry_models(out@) =~= all.take(i as int),
                decreases entries.len() - i,
            {
                assert(all[i as int] == (
                    yaml_content(*entries@[i as int].0),
                    yaml_content(*entries@[i as int].1),
                ));
                assert(decreases_to!(whole => all[i as int].0) && decreases_to!(whole => all[i as int].1))
                    by {
                    assert(decreases_to!(whole => whole->Table_0));
                    assert(decreases_to!(all => all[i as int]));
                    assert(decreases_to!(all[i as int] => all[i as int].0));
                    assert(decreases_to!(all[i as int] => all[i as int].1));
                }
                let key = from_yaml(entries[i].0);
                let member = from_yaml(entries[i].1);
                let ghost before = out@;
                out.push((key, member));
                proof {
                    assert(out@.drop_last() =~= before);
                    assert(all.take(i + 1) =~= all.take(i as int).push(all[i as int]));
                    assert(content(out@.last().0) == all[i as int].0);
                }
                i += 1;
            }
            assert(all.take(i as int) =~= all);
            Data::Table(out)
        },
        YamlPart::Tagged(tag, inner) => {
            assert(decreases_to!(whole => *whole->Tagged_1));
            Data::Tagged(tag, Box::new(from_yaml(inner)))
        },
    }
}

/// What a text holds when it is read as JSON.
pub uninterp spec fn json_of(text: Seq<char>) -> Option<DataModel>;

/// `serde_json::from_str`, whose errors all count alike.
#[verifier::external_body]
pub(crate) fn read_json(text: &str) -> (r: Option<serde_json::Value>)
    ensures
        r is Some == json_of(text@) is Some,
        r is Some ==> json_of(text@) == Some(json_content(r->0)),
{
    serde_json::from_str(text).ok()
}

/// What a body of bytes holds when it is read as JSON, or why it holds nothing.
pub uninterp spec fn json_of_bytes(bytes: Seq<u8>) -> Result<DataModel, Seq<char>>;

/// `serde_json::from_slice` into a `serde_json::Value`, with an error as its `Display` form.
#[verifier::external_body]
pub(crate) fn read_json_bytes(bytes: &Vec<u8>) -> (r: Result<serde_json::Value, String>)
    ensures
        match r {
            Ok(value) => json_of_bytes(bytes@) == Ok::<DataModel, Seq<char>>(json_content(value)),
            Err(fault) => json_of_bytes(bytes@) == Err::<DataModel, Seq<char>>(fault@),
        },
{
    serde_json::from_slice(bytes).map_err(|fault| fault.to_string())
}

/// What a text holds when it is read as JSON5.
pub uninterp spec fn json5_of(text: Seq<char>) -> Option<DataModel>;

/// `json5::from_str`, whose errors all count alike.
#[verifier::external_body]
fn read_json5(text: &str) -> (r: Option<serde_json::Value>)
    ensures
        r is Some == json5_of(text@) is Some,
        r is Some ==> json5_of(text@) == Some(json_content(r->0)),
{
    json5::from_str(text).ok()
}

/// A value as compact JSON text.
pub uninterp spec fn json_print(value: DataModel) -> Seq<char>;

/// `serde_json::Value::to_string`.
#[verifier::external_body]
pub(crate) fn print_json(value: &serde_json::Value) -> (r: String)
    ensures
        r@ == json_print(json_content(*value)),
{
    value.to_string()
}

/// The member of a JSON object with a name.
pub(crate) fn json_member<'a>(value: &'a serde_json::Value, name: &str) -> (r: Option<
    &'a serde_json::Value,
>)
    ensures
        match r {
            Some(member) => under(json_content(*value), name@) == Some(json_content(*member)),
            None => under(json_content(*value), name@) is None,
        },
{
    match json_part(value) {
        JsonPart::Table(entries) => {
            let ghost all = json_entries(entries@);
            let ghost p = has_name(all, name@);
            let ghost n = all.len() as int;
            let mut i: usize = 0;
            while i < entries.len()
                invariant
                    i <= entries.len(),
                    all == json_entries(entries@),
                    p == has_name(all, name@),
                    n == all.len() == entries.len(),
                    json_content(*value) == DataModel::Table(all),
                    first_from(p, i as int, n) == first_from(p, 0, n),
                decreases entries.len() - i,
            {
                assert(all[i as int] == (
                    DataModel::Text(entries@[i as int].0@),
                    json_content(*entries@[i as int].1),
                ));
                if same(entries[i].0.as_str(), name) {
                    assert(p(i as int));
                    return Some(entries[i].1);
                }
                assert(!p(i as int));
                i += 1;
            }
            None
        },
        _ => None,
    }
}

/// Whether a JSON value is null.
pub(crate) fn is_null(value: &serde_json::Value) -> (r: bool)
    ensures
        r == (json_content(*value) == DataModel::Null),
{
    match json_part(value) {
        JsonPart::Null => true,
        _ => false,
    }
}

/// The names of the members of a JSON object.
pub(crate) fn json_names(value: &serde_json::Value) -> (r: KeySet<String>)
    ensures
        r@ == names_in(json_content(*value)),
{
    let mut out: KeySet<String> = KeySet::new();
    match json_part(value) {
        JsonPart::Table(entries) => {
            let ghost all = json_entries(entries@);
            let mut i: usize = 0;
            while i < entries.len()
                invariant
                    i <= entries.len(),
                    all == json_entries(entries@),
                    all.len() == entries.len(),
                    json_content(*value) == DataModel::Table(all),
                    forall|n: Seq<char>| #[trigger]
                        out@.contains(n) == (exists|k: int|
                            0 <= k < i && (#[trigger] all[k]).0 == DataModel::Text(n)),
                decreases entries.len() - i,
            {
                let ghost before = out@;
                out.insert(entries[i].0.clone());
                proof {
                    assert(all[i as int].0 == DataModel::Text(entries@[i as int].0@));
                    assert forall|n: Seq<char>| #[trigger]
                        out@.contains(n) == (exists|k: int|
                            0 <= k < i + 1 && (#[trigger] all[k]).0 == DataModel::Text(n)) by {
                        assert(before.contains(n) == (exists|k: int|
                            0 <= k < i && (#[trigger] all[k]).0 == DataModel::Text(n)));
                        assert(out@.contains(n) == (before.contains(n) || all[i as int].0
                            == DataModel::Text(n)));
                    }
                }
                i += 1;
            }
        },
        _ => {},
    }
    assert(out@ =~= names_in(json_content(*value)));
    out
}

/// A JSON value as text: a string as it is, anything else as JSON.
pub open spec fn plain_text(value: DataModel) -> Seq<char> {
    match value {
        DataModel::Text(text) => text,
        _ => json_print(value),
    }
}

pub(crate) fn json_text(value: &serde_json::Value) -> (r: String)
    ensures
        r@ == plain_text(json_content(*value)),
{
    match json_part(value) {
        JsonPart::Text(text) => text,
        _ => print_json(value),
    }
}

/// A JSON value is a string.
pub(crate) fn json_is_text(value: &serde_json::Value) -> (r: bool)
    ensures
        r == (json_content(*value) is Text),
{
    match json_part(value) {
        JsonPart::Text(_) => true,
        _ => false,
    }
}

pub open spec fn data_view(data: Option<Data>) -> Option<DataModel> {
    match data {
        Some(d) => Some(d@),
        None => None,
    }
}

/// Reads a text as JSON5.
pub fn parse_json5(text: &str) -> (r: Option<Data>)
    ensures
        data_view(r) == json5_of(text@),
{
    match read_json5(text) {
        Some(value) => Some(from_json(&value)),
        None => None,
    }
}

} // verus!
