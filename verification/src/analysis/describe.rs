//! What is said of a changed file that concerns a whole package.
use vstd::prelude::*;

use crate::collections::{ascending_list, ascending_list_is, KeySet};
use crate::data::{
    from_json, json_content, json_is_text, json_member, json_names, json_of, json_text, plain_text,
    read_json, DataModel,
};
use crate::git::{ChangeKind, KindModel};
use crate::lookup::{alike, names_in, same_data, under};
use crate::order::{chars_of, Key};
use crate::package_manager::str_view;
use crate::text::{same, text_between};
use crate::words::texts_of;

verus! {

pub type Text = Seq<char>;

/// A text of at most a hundred characters; a longer one is cut and ends in an ellipsis.
pub open spec fn clipped(text: Text) -> Text {
    if text.len() > 100 {
        text.take(99).push('\u{2026}')
    } else {
        text
    }
}

/// A JSON value as it is shown.
pub open spec fn shown_value(value: DataModel) -> Text {
    clipped(plain_text(value))
}

fn display_json(value: &serde_json::Value) -> (r: String)
    ensures
        r@ == shown_value(json_content(*value)),
{
    let text = json_text(value);
    let chars: Vec<char> = chars_of(text.as_str());
    if chars.len() > 100 {
        let mut out = text_between(&chars, 0, 99);
        let ghost cut = out@;
        out.append("\u{2026}");
        proof {
            reveal_strlit("\u{2026}");
            assert(cut =~= text@.take(99));
            assert(out@ =~= text@.take(99).push('\u{2026}'));
        }
        out
    } else {
        text
    }
}

/// What is said of an entry of a section of a manifest.
pub open spec fn entry_line(
    noun: Text,
    name: Text,
    before: Option<DataModel>,
    after: Option<DataModel>,
) -> Option<Text> {
    match (before, after) {
        (None, Some(value)) => Some(
            "added "@ + noun + " `"@ + name + "` = "@ + shown_value(value),
        ),
        (Some(_), None) => Some("removed "@ + noun + " `"@ + name + "`"@),
        (Some(a), Some(b)) => if alike(a, b) {
            None
        } else {
            Some(
                "changed "@ + noun + " `"@ + name + "` from "@ + shown_value(a) + " to "@
                    + shown_value(b),
            )
        },
        (None, None) => None,
    }
}

/// The value in a section of a manifest.
pub open spec fn value_in(doc: DataModel, section: Text, name: Text) -> Option<DataModel> {
    match under(doc, section) {
        Some(part) => under(part, name),
        None => None,
    }
}

pub open spec fn section_names(doc: DataModel, section: Text) -> Set<Text> {
    match under(doc, section) {
        Some(part) => names_in(part),
        None => Set::empty(),
    }
}

/// What is said of the first `n` of these names of a section.
pub open spec fn entry_lines(
    section: Text,
    noun: Text,
    old: DataModel,
    new: DataModel,
    names: Seq<Text>,
    n: int,
) -> Seq<Text>
    decreases n,
{
    if n <= 0 {
        Seq::empty()
    } else {
        let before = entry_lines(section, noun, old, new, names, n - 1);
        let name = names[n - 1];
        match entry_line(noun, name, value_in(old, section, name), value_in(new, section, name)) {
            Some(line) => before.push(line),
            None => before,
        }
    }
}

/// What is said of a section: its names in ascending order.
pub open spec fn section_lines(
    section: Text,
    noun: Text,
    old: DataModel,
    new: DataModel,
) -> Seq<Text> {
    let names = ascending_list::<String>(
        section_names(old, section).union(section_names(new, section)),
    );
    entry_lines(section, noun, old, new, names, names.len() as int)
}

/// What is said of a field outside the sections.
pub open spec fn field_line(
    key: Text,
    before: Option<DataModel>,
    after: Option<DataModel>,
) -> Option<Text> {
    match (before, after) {
        (None, None) => None,
        (None, Some(value)) => Some("added field `"@ + key + "` = "@ + shown_value(value)),
        (Some(_), None) => Some("removed field `"@ + key + "`"@),
        (Some(a), Some(b)) => if alike(a, b) {
            None
        } else if a is Text && b is Text {
            Some(
                "changed field `"@ + key + "` from "@ + shown_value(a) + " to "@ + shown_value(b),
            )
        } else {
            Some("changed field `"@ + key + "`"@)
        },
    }
}

/// The fields that are described entry by entry.
pub open spec fn is_section(key: Text) -> bool {
    key == "dependencies"@ || key == "devDependencies"@ || key == "peerDependencies"@ || key
        == "optionalDependencies"@ || key == "scripts"@
}

pub open spec fn field_lines(old: DataModel, new: DataModel, names: Seq<Text>, n: int) -> Seq<Text>
    decreases n,
{
    if n <= 0 {
        Seq::empty()
    } else {
        let before = field_lines(old, new, names, n - 1);
        let key = names[n - 1];
        if is_section(key) {
            before
        } else {
            match field_line(key, under(old, key), under(new, key)) {
                Some(line) => before.push(line),
                None => before,
            }
        }
    }
}

/// What is said of a manifest that holds `new` in place of `old`.
pub open spec fn manifest_lines(old: DataModel, new: DataModel) -> Seq<Text> {
    let names = ascending_list::<String>(names_in(old).union(names_in(new)));
    let all = section_lines("dependencies"@, "dependency"@, old, new) + section_lines(
        "devDependencies"@,
        "development dependency"@,
        old,
        new,
    ) + section_lines("peerDependencies"@, "peer dependency"@, old, new) + section_lines(
        "optionalDependencies"@,
        "optional dependency"@,
        old,
        new,
    ) + section_lines("scripts"@, "script"@, old, new) + field_lines(
        old,
        new,
        names,
        names.len() as int,
    );
    if all.len() == 0 {
        seq!["changed package manifest"@]
    } else {
        all
    }
}

pub open spec fn action(kind: KindModel) -> Text {
    match kind {
        KindModel::Added => "added build input"@,
        KindModel::Modified => "modified build input"@,
        KindModel::Deleted => "deleted build input"@,
        KindModel::Renamed(_) => "renamed build input"@,
    }
}

pub open spec fn manifest_action(kind: KindModel) -> Text {
    match kind {
        KindModel::Added => "added package manifest"@,
        KindModel::Deleted => "deleted package manifest"@,
        _ => "changed package manifest"@,
    }
}

pub open spec fn parsed_json(text: Option<Text>) -> Option<DataModel> {
    match text {
        Some(t) => json_of(t),
        None => None,
    }
}

/// What is said of a changed file, given its texts at the two revisions.
pub open spec fn description(
    name: Option<Text>,
    kind: KindModel,
    old: Option<Text>,
    new: Option<Text>,
) -> Seq<Text> {
    if name != Some("package.json"@) {
        seq![action(kind)]
    } else {
        match (parsed_json(old), parsed_json(new)) {
            (Some(a), Some(b)) => manifest_lines(a, b),
            _ => seq![manifest_action(kind)],
        }
    }
}

fn describe_entry(
    noun: &str,
    name: &str,
    before: Option<&serde_json::Value>,
    after: Option<&serde_json::Value>,
) -> (r: Option<String>)
    ensures
        r.model() == entry_line(noun@, name@, value_view(before), value_view(after)),
{
    match (before, after) {
        (None, Some(value)) => {
            let mut out = "added ".to_owned();
            out.append(noun);
            out.append(" `");
            out.append(name);
            out.append("` = ");
            out.append(display_json(value).as_str());
            Some(out)
        },
        (Some(_), None) => {
            let mut out = "removed ".to_owned();
            out.append(noun);
            out.append(" `");
            out.append(name);
            out.append("`");
            Some(out)
        },
        (Some(a), Some(b)) => {
            if same_data(&from_json(a), &from_json(b)) {
                return None;
            }
            let mut out = "changed ".to_owned();
            out.append(noun);
            out.append(" `");
            out.append(name);
            out.append("` from ");
            out.append(display_json(a).as_str());
            out.append(" to ");
            out.append(display_json(b).as_str());
            Some(out)
        },
        (None, None) => None,
    }
}

fn describe_field(
    key: &str,
    before: Option<&serde_json::Value>,
    after: Option<&serde_json::Value>,
) -> (r: Option<String>)
    ensures
        r.model() == field_line(key@, value_view(before), value_view(after)),
{
    match (before, after) {
        (None, None) => None,
        (None, Some(value)) => {
            let mut out = "added field `".to_owned();
            out.append(key);
            out.append("` = ");
            out.append(display_json(value).as_str());
            Some(out)
        },
        (Some(_), None) => {
            let mut out = "removed field `".to_owned();
            out.append(key);
            out.append("`");
            Some(out)
        },
        (Some(a), Some(b)) => {
            if same_data(&from_json(a), &from_json(b)) {
                return None;
            }
            let mut out = "changed field `".to_owned();
            out.append(key);
            if json_is_text(a) && json_is_text(b) {
                out.append("` from ");
                out.append(display_json(a).as_str());
                out.append(" to ");
                out.append(display_json(b).as_str());
            } else {
                out.append("`");
            }
            Some(out)
        },
    }
}

pub open spec fn value_view(value: Option<&serde_json::Value>) -> Option<DataModel> {
    match value {
        Some(v) => Some(json_content(*v)),
        None => None,
    }
}

fn member_of<'a>(part: Option<&'a serde_json::Value>, name: &str) -> (r: Option<
    &'a serde_json::Value,
>)
    ensures
        value_view(r) == match value_view(part) {
            Some(d) => under(d, name@),
            None => None,
        },
{
    match part {
        Some(v) => json_member(v, name),
        None => None,
    }
}

fn names_of(part: Option<&serde_json::Value>) -> (r: KeySet<String>)
    ensures
        r@ == match value_view(part) {
            Some(d) => names_in(d),
            None => Set::empty(),
        },
{
    match part {
        Some(v) => json_names(v),
        None => KeySet::new(),
    }
}

fn describe_section(
    section: &str,
    noun: &str,
    before: &serde_json::Value,
    after: &serde_json::Value,
    out: &mut Vec<String>,
)
    ensures
        texts_of(final(out)@) == texts_of(old(out)@) + section_lines(
            section@,
            noun@,
            json_content(*before),
            json_content(*after),
        ),
{
    let ghost a = json_content(*before);
    let ghost b = json_content(*after);
    let ghost start = texts_of(out@);
    let old_part = json_member(before, section);
    let new_part = json_member(after, section);
    let mut found = names_of(old_part);
    let more = names_of(new_part);
    found.extend(&more);
    let n = found.len();
    let ghost names = found.list();
    proof {
        ascending_list_is::<String>(
            names,
            section_names(a, section@).union(section_names(b, section@)),
        );
    }
    let mut i: usize = 0;
    assert(texts_of(out@) =~= start + Seq::empty());
    while i < n
        invariant
            i <= n,
            n == names.len(),
            names == found.list(),
            a == json_content(*before),
            b == json_content(*after),
            value_view(old_part) == under(a, section@),
            value_view(new_part) == under(b, section@),
            texts_of(out@) == start + entry_lines(section@, noun@, a, b, names, i as int),
        decreases n - i,
    {
        let name = found.at(i);
        let line = describe_entry(
            noun,
            name.as_str(),
            member_of(old_part, name.as_str()),
            member_of(new_part, name.as_str()),
        );
        let ghost done = texts_of(out@);
        let ghost l = line.model();
        match line {
            Some(line) => {
                out.push(line);
                assert(texts_of(out@) =~= done.push(l->0));
                assert(texts_of(out@) =~= start + entry_lines(section@, noun@, a, b, names, i as int).push(l->0));
            },
            None => {},
        }
        i += 1;
    }
}

fn is_described(key: &str) -> (r: bool)
    ensures
        r == is_section(key@),
{
    same(key, "dependencies") || same(key, "devDependencies") || same(key, "peerDependencies")
        || same(key, "optionalDependencies") || same(key, "scripts")
}

fn describe_fields(before: &serde_json::Value, after: &serde_json::Value, out: &mut Vec<String>)
    ensures
        ({
            let a = json_content(*before);
            let b = json_content(*after);
            let names = ascending_list::<String>(names_in(a).union(names_in(b)));
            texts_of(final(out)@) == texts_of(old(out)@) + field_lines(
                a,
                b,
                names,
                names.len() as int,
            )
        }),
{
    let ghost a = json_content(*before);
    let ghost b = json_content(*after);
    let ghost start = texts_of(out@);
    let mut found = json_names(before);
    let more = json_names(after);
    found.extend(&more);
    let n = found.len();
    let ghost names = found.list();
    proof {
        ascending_list_is::<String>(names, names_in(a).union(names_in(b)));
    }
    let mut i: usize = 0;
    assert(texts_of(out@) =~= start + Seq::empty());
    while i < n
        invariant
            i <= n,
            n == names.len(),
            names == found.list(),
            a == json_content(*before),
            b == json_content(*after),
            texts_of(out@) == start + field_lines(a, b, names, i as int),
        decreases n - i,
    {
        let key = found.at(i);
        if !is_described(key.as_str()) {
            let line = describe_field(
                key.as_str(),
                json_member(before, key.as_str()),
                json_member(after, key.as_str()),
            );
            let ghost done = texts_of(out@);
            let ghost l = line.model();
            match line {
                Some(line) => {
                    out.push(line);
                    assert(texts_of(out@) =~= done.push(l->0));
                    assert(texts_of(out@) =~= start + field_lines(a, b, names, i as int).push(l->0));
                },
                None => {},
            }
        }
        i += 1;
    }
}

/// How two manifests differ, in one line for each dependency, script and field that does.
pub fn describe_manifest(before: &serde_json::Value, after: &serde_json::Value) -> (r: Vec<String>)
    ensures
        texts_of(r@) == manifest_lines(json_content(*before), json_content(*after)),
{
    let mut out: Vec<String> = Vec::new();
    let ghost a = json_content(*before);
    let ghost b = json_content(*after);
    assert(texts_of(out@) =~= Seq::empty());
    describe_section("dependencies", "dependency", before, after, &mut out);
    assert(texts_of(out@) =~= section_lines("dependencies"@, "dependency"@, a, b));
    describe_section("devDependencies", "development dependency", before, after, &mut out);
    describe_section("peerDependencies", "peer dependency", before, after, &mut out);
    describe_section("optionalDependencies", "optional dependency", before, after, &mut out);
    describe_section("scripts", "script", before, after, &mut out);
    describe_fields(before, after, &mut out);
    assert(texts_of(out@).len() == out@.len());
    if out.len() == 0 {
        out.push("changed package manifest".to_owned());
        assert(texts_of(out@) =~= seq!["changed package manifest"@]);
    }
    out
}

fn read_text(text: Option<&str>) -> (r: Option<serde_json::Value>)
    ensures
        match r {
            Some(value) => parsed_json(str_view(text)) == Some(json_content(value)),
            None => parsed_json(str_view(text)) is None,
        },
{
    match text {
        Some(t) => read_json(t),
        None => None,
    }
}

/// Says what changed in a file that concerns a whole package: of a manifest each dependency,
/// script and field, of any other file that it changed.
pub fn describe_direct_input(
    name: Option<&str>,
    kind: &ChangeKind,
    before: Option<&str>,
    after: Option<&str>,
) -> (r: Vec<String>)
    ensures
        texts_of(r@) == description(str_view(name), kind@, str_view(before), str_view(after)),
{
    let is_manifest = match name {
        Some(n) => same(n, "package.json"),
        None => false,
    };
    let mut out: Vec<String> = Vec::new();
    if !is_manifest {
        let text = match kind {
            ChangeKind::Added => "added build input",
            ChangeKind::Modified => "modified build input",
            ChangeKind::Deleted => "deleted build input",
            ChangeKind::Renamed { .. } => "renamed build input",
        };
        out.push(text.to_owned());
        assert(texts_of(out@) =~= seq![action(kind@)]);
        return out;
    }
    match (read_text(before), read_text(after)) {
        (Some(a), Some(b)) => describe_manifest(&a, &b),
        _ => {
            let text = match kind {
                ChangeKind::Added => "added package manifest",
                ChangeKind::Deleted => "deleted package manifest",
                _ => "changed package manifest",
            };
            out.push(text.to_owned());
            assert(texts_of(out@) =~= seq![manifest_action(kind@)]);
            out
        },
    }
}

} // verus!
