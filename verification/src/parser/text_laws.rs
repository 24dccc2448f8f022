//! What holds of the texts that changes are told by, and of the loops that index registries.
use vstd::prelude::*;

use crate::collections::{ascending_list, ascending_list_fits, first_from_fits};
use crate::parser::load_laws::is_top_symbol;
use crate::parser::model::Text;
use crate::parser::registry_laws::{is_a, is_labelled};
use crate::parser::source::text_at;
use crate::parser::start::{listed_text, passed_text};
use crate::parser::syntax::{
    import_views, re_export_views, request_views, star_views, ModuleSyntax,
};
use crate::parser::tree::has_key;

verus! {

/// `part` stands somewhere in `text`.
pub open spec fn stands_in(part: Text, text: Text) -> bool {
    exists|a: int| 0 <= a && a + part.len() <= text.len() && #[trigger] text.subrange(
        a,
        a + part.len(),
    ) == part
}

proof fn parts_stay(part: Text, a: Text, b: Text, c: Text)
    requires
        stands_in(part, b),
    ensures
        stands_in(part, a + b + c),
{
    let i = choose|i: int| 0 <= i && i + part.len() <= b.len() && #[trigger] b.subrange(
        i,
        i + part.len(),
    ) == part;
    let k = a.len() + i;
    assert((a + b + c).subrange(k, k + part.len()) =~= b.subrange(i, i + part.len()));
}

proof fn texts_stand_in_themselves(part: Text)
    ensures
        stands_in(part, part),
{
    assert(part.subrange(0, 0 + part.len() as int) =~= part);
}

proof fn loose_tokens_are_kept(s: ModuleSyntax, source: Text, n: int, k: int)
    requires
        0 <= k < n,
        !s.in_declaration(s.tokens@[k].0, s.tokens@[k].1),
    ensures
        stands_in(
            text_at(source, s.tokens@[k].0 as int, s.tokens@[k].1 as int),
            s.loose_text(source, n),
        ),
    decreases n,
{
    let part = s.token_text(source, k);
    let before = s.loose_text(source, n - 1);
    let none = Seq::<char>::empty();
    if k == n - 1 {
        texts_stand_in_themselves(part);
        parts_stay(part, before, part, none);
        assert(before + part + none =~= s.loose_text(source, n));
    } else {
        loose_tokens_are_kept(s, source, n - 1, k);
        let last = s.token_text(source, n - 1);
        parts_stay(part, none, before, last);
        assert(none + before + last =~= before + last);
    }
}

proof fn parts_join(a: Text, b: Text, c: Text, d: Text)
    ensures
        a + (b + c + d) == a + b + c + d,
        Seq::<char>::empty() + a + (b + c + d) == a + b + c + d,
        a + (b + c + d) + Seq::<char>::empty() == a + b + c + d,
{
}

proof fn names_are_listed(word: Text, list: Seq<Text>, n: int, i: int)
    requires
        0 <= i < n,
    ensures
        stands_in(word + list[i] + ";"@, listed_text(word, list, n)),
    decreases n,
{
    let part = word + list[i] + ";"@;
    let before = listed_text(word, list, n - 1);
    let none = Seq::<char>::empty();
    let last = word + list[n - 1] + ";"@;
    parts_join(before, word, list[n - 1], ";"@);
    if i == n - 1 {
        texts_stand_in_themselves(part);
        parts_stay(part, before, part, none);
    } else {
        names_are_listed(word, list, n - 1, i);
        parts_stay(part, none, before, last);
    }
}

proof fn requests_are_finite(s: ModuleSyntax)
    ensures
        s.requested().finite(),
{
    let imports = import_views(s.imports@);
    let passed = re_export_views(s.re_exports@);
    let stars = star_views(s.stars@);
    let effects = request_views(s.requests@);
    let a = Seq::new(imports.len(), |e: int| imports[e].0);
    let b = Seq::new(passed.len(), |e: int| passed[e].0->0);
    let c = Seq::new(stars.len(), |e: int| stars[e].0->0);
    let d = Seq::new(effects.len(), |e: int| effects[e].0);
    let all = a.to_set().union(b.to_set()).union(c.to_set()).union(d.to_set());
    vstd::seq_lib::seq_to_set_is_finite(a);
    vstd::seq_lib::seq_to_set_is_finite(b);
    vstd::seq_lib::seq_to_set_is_finite(c);
    vstd::seq_lib::seq_to_set_is_finite(d);
    assert forall|name: Text| s.requested().contains(name) implies all.contains(name) by {
        if exists|e: int| #[trigger] s.import_asks(e, name) {
            let e = choose|e: int| #[trigger] s.import_asks(e, name);
            assert(a[e] == name);
        } else if exists|e: int| #[trigger] s.re_export_asks(e, name) {
            let e = choose|e: int| #[trigger] s.re_export_asks(e, name);
            assert(b[e] == name);
        } else if exists|e: int| #[trigger] s.star_asks(e, name) {
            let e = choose|e: int| #[trigger] s.star_asks(e, name);
            assert(c[e] == name);
        } else {
            let e = choose|e: int| #[trigger] s.effect_asks(e, name);
            assert(d[e] == name);
        }
    }
    vstd::set_lib::lemma_len_subset(s.requested(), all);
}

/// The text that a change of loading a module is told by holds every token that stands outside
/// the declarations of the module, and every module that is asked for.
pub proof fn loading_is_told_by_what_runs(s: ModuleSyntax, source: Text, k: int, name: Text)
    ensures
        0 <= k < s.tokens@.len() && (forall|j: int, c: int|
            0 <= j < s.statements@.len() && 0 <= c < s.symbols@.len() && s.symbols@[c].scope
                == s.root_scope && (#[trigger] s.statements@[j]).0 <= (#[trigger] s.symbols@[c]).start
                && s.symbols@[c].end <= s.statements@[j].1 ==> !(s.statements@[j].0
                <= s.tokens@[k].0 && s.tokens@[k].1 <= s.statements@[j].1)) ==> stands_in(
            text_at(source, s.tokens@[k].0 as int, s.tokens@[k].1 as int),
            s.start_model(source).fingerprint,
        ),
        s.requested().contains(name) ==> stands_in(
            "request:"@ + name + ";"@,
            s.start_model(source).fingerprint,
        ),
{
    let passed = s.passed_on(false, s.re_exports@.len() as int);
    let whole = s.passed_whole(false, s.stars@.len() as int);
    let asked = ascending_list::<String>(s.requested());
    let one = s.loose_text(source, s.tokens@.len() as int);
    let two = passed_text(passed, passed.len() as int);
    let three = listed_text("star:"@, whole, whole.len() as int);
    let four = listed_text("request:"@, asked, asked.len() as int);
    let none = Seq::<char>::empty();
    let text = s.start_model(source).fingerprint;
    if 0 <= k < s.tokens@.len() && !s.in_declaration(s.tokens@[k].0, s.tokens@[k].1) {
        loose_tokens_are_kept(s, source, s.tokens@.len() as int, k);
        parts_stay(s.token_text(source, k), none, one, two + three + four);
        assert(none + one + (two + three + four) =~= text);
    }
    if 0 <= k < s.tokens@.len() && s.in_declaration(s.tokens@[k].0, s.tokens@[k].1) {
        let j = choose|j: int|
            0 <= j < s.statements@.len() && s.statements@[j].0 <= s.tokens@[k].0 && s.tokens@[k].1
                <= s.statements@[j].1 && #[trigger] s.declares(j);
        let c = choose|c: int| #[trigger]
            s.is_top(c) && s.statements@[j].0 <= s.symbols@[c].start && s.symbols@[c].end
                <= s.statements@[j].1;
        assert(s.statements@[j].0 <= s.symbols@[c].start);
    }
    if s.requested().contains(name) {
        requests_are_finite(s);
        ascending_list_fits::<String>(s.requested());
        assert(asked.to_set().contains(name));
        let i = choose|i: int| 0 <= i < asked.len() && asked[i] == name;
        names_are_listed("request:"@, asked, asked.len() as int, i);
        parts_stay("request:"@ + name + ";"@, one + two + three, four, none);
        assert(one + two + three + four + none =~= text);
    }
}

/// Every module that is passed on whole at run time stands in that text, too.
pub proof fn loading_is_told_by_what_is_passed_on(s: ModuleSyntax, source: Text, i: int)
    requires
        0 <= i < s.passed_whole(false, s.stars@.len() as int).len(),
    ensures
        stands_in(
            "star:"@ + s.passed_whole(false, s.stars@.len() as int)[i] + ";"@,
            s.start_model(source).fingerprint,
        ),
{
    let passed = s.passed_on(false, s.re_exports@.len() as int);
    let whole = s.passed_whole(false, s.stars@.len() as int);
    let asked = ascending_list::<String>(s.requested());
    let one = s.loose_text(source, s.tokens@.len() as int);
    let two = passed_text(passed, passed.len() as int);
    let three = listed_text("star:"@, whole, whole.len() as int);
    let four = listed_text("request:"@, asked, asked.len() as int);
    names_are_listed("star:"@, whole, whole.len() as int, i);
    parts_stay("star:"@ + whole[i] + ";"@, one + two, three, four);
    assert(one + two + three + four =~= s.start_model(source).fingerprint);
}

/// The text that a change of a registry itself is told by is that of its declaration around the
/// entries, whatever the entries are.
pub proof fn registries_are_told_without_their_entries(s: ModuleSyntax, source: Text, name: Text)
    requires
        s.registry_models().dom().contains(name),
    ensures
        ({
            let shape = s.registry_models()[name];
            let whole = s.symbols@[shape.symbol as int];
            let list = s.nodes@[shape.collection as int];
            let front = text_at(source, whole.start as int, list.start as int);
            let back = text_at(source, list.end as int, whole.end as int);
            let text = s.symbol_model(source, name).fingerprint;
            &&& front.is_prefix_of(text)
            &&& back.is_suffix_of(text)
            &&& text.len() == front.len() + back.len() + 18
        }),
{
    let shape = s.registry_models()[name];
    let whole = s.symbols@[shape.symbol as int];
    let list = s.nodes@[shape.collection as int];
    let front = text_at(source, whole.start as int, list.start as int);
    let back = text_at(source, list.end as int, whole.end as int);
    let text = s.symbol_model(source, name).fingerprint;
    reveal_strlit("<registry entries>");
    assert("<registry entries>"@.len() == 18);
    assert(text == front + "<registry entries>"@ + back);
    assert(text.subrange(0, front.len() as int) =~= front);
    assert(text.subrange(text.len() - back.len(), text.len() as int) =~= back);
}

proof fn elements_are_entries(
    s: ModuleSyntax,
    names: Map<Text, Text>,
    list: Seq<usize>,
    n: int,
)
    requires
        0 <= n <= list.len(),
    ensures
        (s.array_entries(names, list, n) is Some) == names_objects(s, names, list, n),
        s.array_entries(names, list, n) is Some ==> {
            let entries = s.array_entries(names, list, n)->0;
            &&& entries.len() == n
            &&& forall|i: int|
                0 <= i < n ==> (#[trigger] entries[i]).node == list[i] && entries[i].dependency
                    is Some && is_labelled(s, list[i] as int, entries[i].dependency->0)
                    && entries[i].key == names[entries[i].dependency->0]
        },
    decreases n,
{
    assert(s.nodes.len() == s.nodes@.len());
    if n > 0 {
        elements_are_entries(s, names, list, n - 1);
        let id = list[n - 1] as int;
        if names_objects(s, names, list, n) {
            assert(names_objects(s, names, list, n - 1)) by {
                assert forall|i: int| 0 <= i < n - 1 implies is_named_object(
                    s,
                    names,
                    #[trigger] list[i],
                ) by {}
            }
            assert(is_named_object(s, names, list[n - 1]));
            let before = s.array_entries(names, list, n - 1)->0;
            let label = s.nodes@[id].label->0@;
            if has_key(before, names[label]) {
                let i = choose|i: int| 0 <= i < before.len() && (#[trigger] before[i]).key
                    == names[label];
                assert(is_named_object(s, names, list[i]));
                assert(key_at(s, names, list[i]) == key_at(s, names, list[n - 1]));
            }
            assert(s.array_entries(names, list, n) is Some);
        }
        if s.array_entries(names, list, n) is Some {
            let before = s.array_entries(names, list, n - 1)->0;
            let entries = s.array_entries(names, list, n)->0;
            assert(entries == before.push(entries[n - 1]));
            assert(is_named_object(s, names, list[n - 1]));
            assert forall|i: int| 0 <= i < n implies is_named_object(s, names, #[trigger] list[i]) by {}
            assert forall|i: int, j: int| 0 <= i < j < n implies key_at(s, names, #[trigger] list[i])
                != key_at(s, names, #[trigger] list[j]) by {
                assert(before[i].node == list[i]);
                if j == n - 1 {
                    assert(before[i].key == key_at(s, names, list[i]));
                }
            }
            assert forall|i: int| 0 <= i < n implies (#[trigger] entries[i]).node == list[i]
                && entries[i].dependency is Some && is_labelled(
                s,
                list[i] as int,
                entries[i].dependency->0,
            ) && entries[i].key == names[entries[i].dependency->0] by {
                if i < n - 1 {
                    assert(entries[i] == before[i]);
                }
            }
        }
    }
}

/// An element is a name of an object that names itself.
pub open spec fn is_named_object(s: ModuleSyntax, names: Map<Text, Text>, id: usize) -> bool {
    &&& is_a(s, id as int, "IdentifierReference"@)
    &&& s.nodes@[id as int].label is Some
    &&& names.dom().contains(s.nodes@[id as int].label->0@)
}

pub open spec fn key_at(s: ModuleSyntax, names: Map<Text, Text>, id: usize) -> Text {
    names[s.nodes@[id as int].label->0@]
}

/// The first `n` elements are names of objects that name themselves, no two alike.
pub open spec fn names_objects(
    s: ModuleSyntax,
    names: Map<Text, Text>,
    list: Seq<usize>,
    n: int,
) -> bool {
    &&& forall|i: int| 0 <= i < n ==> is_named_object(s, names, #[trigger] list[i])
    &&& forall|i: int, j: int|
        0 <= i < j < n ==> key_at(s, names, #[trigger] list[i]) != key_at(s, names, #[trigger] list[j])
}

/// A constant array is a registry exactly where its elements are names of objects that name
/// themselves, no two alike; each object is an entry under the name that it gives itself.
pub proof fn arrays_of_named_objects_are_registries(
    s: ModuleSyntax,
    names: Map<Text, Text>,
    id: int,
    value: int,
)
    requires
        s.constant_at(id) is Some,
        s.nodes@[id].operand matches Some(v) && v == value,
        is_a(s, value, "ArrayExpression"@),
    ensures
        (s.registry_at(names, id) is Some) == names_objects(
            s,
            names,
            s.below(value),
            s.below(value).len() as int,
        ),
        s.registry_at(names, id) matches Some(shape) ==> {
            &&& shape.collection == value
            &&& shape.entries.len() == s.below(value).len()
            &&& forall|i: int|
                0 <= i < shape.entries.len() ==> (#[trigger] shape.entries[i]).node == s.below(
                    value,
                )[i] && shape.entries[i].dependency is Some && is_labelled(
                    s,
                    s.below(value)[i] as int,
                    shape.entries[i].dependency->0,
                ) && shape.entries[i].key == names[shape.entries[i].dependency->0]
        },
{
    assert(s.nodes.len() == s.nodes@.len());
    reveal_strlit("ArrayExpression");
    reveal_strlit("ObjectExpression");
    assert("ArrayExpression"@.len() == 15 && "ObjectExpression"@.len() == 16);
    let list = s.below(value);
    elements_are_entries(s, names, list, list.len() as int);
}

/// Node `id` is the identifier `name`.
pub open spec fn is_identifier(s: ModuleSyntax, id: int, name: Text) -> bool {
    is_a(s, id, "IdentifierReference"@) && is_labelled(s, id, name)
}

/// Node `id` reads the property `property` of the identifier `name`.
pub open spec fn reads_of(s: ModuleSyntax, id: int, name: Text, property: Text) -> bool {
    &&& is_a(s, id, "StaticMemberExpression"@)
    &&& is_labelled(s, id, property)
    &&& s.nodes@[id].operand matches Some(object) && is_identifier(s, object as int, name)
}

/// Of a registry that the module indexes, nothing outside one loop over it is read at run time;
/// the loop puts what it goes through into a map of the module, under its name.
pub proof fn indexed_registries_are_confined(s: ModuleSyntax, source: Text, registry: Text)
    requires
        s.indexed(source).contains(registry),
    ensures
        exists|id: int, map: Text, item: Text, call: int| #[trigger]
            is_index_loop(s, id, registry, map, item, call),
{
    assert(s.nodes.len() == s.nodes@.len() && s.symbols.len() == s.symbols@.len());
    let id = choose|id: int| s.is_node(id) && #[trigger] s.indexes(source, id, registry);
    let (list, map) = s.index_builder(source, id)->0;
    let item = s.loop_variable(id)->0;
    let call = s.loop_call(id)->0;
    let p = s.is_top_named(registry);
    let q = s.is_top_named(map);
    first_from_fits(p, 0, s.symbols@.len() as int);
    first_from_fits(q, 0, s.symbols@.len() as int);
    let i = s.top_named(registry)->0;
    let j = s.top_named(map)->0;
    assert(p(i) && q(j));
    assert(is_top_symbol(s, i, registry) && is_top_symbol(s, j, map));
    assert forall|k: int|
        0 <= k < s.references@.len() && (#[trigger] s.references@[k]).symbol == i
            && !s.references@[k].type_only implies s.nodes@[id].start <= s.references@[k].start
        && s.references@[k].end <= s.nodes@[id].end by {
        assert(s.refers(k, i));
    }
    assert(is_confined(s, id, registry));
    assert(is_index_loop(s, id, registry, map, item, call));
}

/// All mentions at run time of a symbol of the module with this name lie in node `id`.
pub open spec fn is_confined(s: ModuleSyntax, id: int, name: Text) -> bool {
    exists|i: int| #[trigger]
        is_top_symbol(s, i, name) && forall|k: int|
            0 <= k < s.references@.len() && (#[trigger] s.references@[k]).symbol == i
                && !s.references@[k].type_only ==> s.nodes@[id].start <= s.references@[k].start
                && s.references@[k].end <= s.nodes@[id].end
}

/// Node `id` is a loop over `registry` that does nothing but `map.set(item.name, item)`.
pub open spec fn is_index_loop(
    s: ModuleSyntax,
    id: int,
    registry: Text,
    map: Text,
    item: Text,
    call: int,
) -> bool {
    &&& is_a(s, id, "ForOfStatement"@)
    &&& s.nodes@[id].operand matches Some(list) && is_identifier(s, list as int, registry)
    &&& is_a(s, call, "CallExpression"@)
    &&& s.nodes@[call].operand matches Some(callee) && reads_of(s, callee as int, map, "set"@)
    &&& s.arguments(call).len() == 2
    &&& reads_of(s, s.arguments(call)[0] as int, item, "name"@)
    &&& is_identifier(s, s.arguments(call)[1] as int, item)
    &&& is_confined(s, id, registry)
}

proof fn names_are_found_among(s: ModuleSyntax, list: Seq<usize>, n: int, j: int, value: int)
    requires
        0 <= j < n <= list.len(),
        s.name_among(list, n) is Some,
        names_itself(s, list, n, j, value),
    ensures
        is_a(s, value, "StringLiteral"@),
        s.name_among(list, n)->0 == s.label_of(value),
    decreases n,
{
    assert(s.nodes.len() == s.nodes@.len());
    if j < n - 1 {
        assert(!is_labelled(s, list[n - 1] as int, "name"@));
        assert(names_itself(s, list, n - 1, j, value));
        names_are_found_among(s, list, n - 1, j, value);
    }
}

/// Of the first `n` properties the `j`th is the last one called `name`, and has this value.
pub open spec fn names_itself(
    s: ModuleSyntax,
    list: Seq<usize>,
    n: int,
    j: int,
    value: int,
) -> bool {
    &&& is_labelled(s, list[j] as int, "name"@)
    &&& s.nodes@[list[j] as int].operand matches Some(v) && v == value
    &&& forall|i: int| j < i < n ==> !is_labelled(s, (#[trigger] list[i]) as int, "name"@)
}

/// An object that names itself has the name that its last property `name` gives, which is a
/// string.
pub proof fn objects_name_themselves(s: ModuleSyntax, object: int, j: int, value: int)
    requires
        0 <= j < s.below(object).len(),
        names_itself(s, s.below(object), s.below(object).len() as int, j, value),
        0 <= value < s.nodes@.len(),
        s.entry_name(object) is Some,
    ensures
        is_a(s, value, "StringLiteral"@),
        is_labelled(s, value, s.entry_name(object)->0),
{
    let list = s.below(object);
    assert(s.nodes.len() == s.nodes@.len());
    names_are_found_among(s, list, list.len() as int, j, value);
}

} // verus!
