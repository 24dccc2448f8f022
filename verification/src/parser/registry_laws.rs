//! What holds of the registries of every module, and of what is read from them.
use vstd::prelude::*;

use crate::collections::first_from_fits;
use crate::parser::load_laws::is_top_symbol;
use crate::parser::model::Text;
use crate::parser::source::text_at;
use crate::parser::syntax::ModuleSyntax;
use crate::parser::tree::{has_key, EntryModel, RegistryModel};

verus! {

/// Node `id` is of this kind.
pub open spec fn is_a(s: ModuleSyntax, id: int, kind: Text) -> bool {
    0 <= id < s.nodes@.len() && s.nodes@[id].kind@ == kind
}

/// Node `c` stands directly below node `id`.
pub open spec fn is_child(s: ModuleSyntax, c: int, id: int) -> bool {
    0 <= c < s.nodes@.len() && s.nodes@[c].parent == id && c != id
}

/// Node `id` bears this label.
pub open spec fn is_labelled(s: ModuleSyntax, id: int, label: Text) -> bool {
    0 <= id < s.nodes@.len() && (s.nodes@[id].label matches Some(text) && text@ == label)
}

proof fn children_are_below(s: ModuleSyntax, id: int, n: int, c: usize)
    requires
        0 <= n <= s.nodes@.len(),
    ensures
        s.children(id, n).contains(c) <==> is_child(s, c as int, id) && c < n,
        forall|i: int| 0 <= i < s.children(id, n).len() ==> (#[trigger] s.children(id, n)[i]) < n,
        forall|i: int, j: int|
            0 <= i < j < s.children(id, n).len() ==> s.children(id, n)[i] != s.children(id, n)[j],
    decreases n,
{
    assert(s.nodes.len() == s.nodes@.len() && s.symbols.len() == s.symbols@.len());
    if n > 0 {
        children_are_below(s, id, n - 1, c);
        let before = s.children(id, n - 1);
        let list = s.children(id, n);
        if before.contains(c) {
            let k = choose|k: int| 0 <= k < before.len() && before[k] == c;
            assert(list[k] == c);
        }
        if list.contains(c) && !before.contains(c) {
            let k = choose|k: int| 0 <= k < list.len() && list[k] == c;
            assert(k == before.len());
        }
        if list.len() > before.len() && c == n - 1 {
            assert(list[before.len() as int] == c);
        }
        assert forall|i: int, j: int| 0 <= i < j < list.len() implies list[i] != list[j] by {
            if j == before.len() {
                assert(before[i] < n - 1);
            } else {
                assert(before[i] != before[j]);
            }
        }
    }
}

/// A literal: a value that is always the same.
pub open spec fn is_literal(s: ModuleSyntax, id: int) -> bool {
    ||| is_a(s, id, "BooleanLiteral"@)
    ||| is_a(s, id, "NullLiteral"@)
    ||| is_a(s, id, "NumericLiteral"@)
    ||| is_a(s, id, "BigIntLiteral"@)
    ||| is_a(s, id, "RegExpLiteral"@)
    ||| is_a(s, id, "StringLiteral"@)
    ||| is_a(s, id, "TemplateLiteral"@) && forall|c: int| #[trigger]
        is_child(s, c, id) ==> is_a(s, c, "TemplateElement"@)
}

proof fn literals_are_static(s: ModuleSyntax, id: int)
    ensures
        s.is_static_value(id) == is_literal(s, id),
{
    assert(s.nodes.len() == s.nodes@.len() && s.symbols.len() == s.symbols@.len());
    let list = s.below(id);
    let n = s.nodes@.len() as int;
    if is_literal(s, id) && s.is_kind(id, "TemplateLiteral"@) {
        assert forall|i: int| 0 <= i < list.len() implies s.is_kind(
            #[trigger] list[i] as int,
            "TemplateElement"@,
        ) || !(forall|c: int| #[trigger] is_child(s, c, id) ==> is_a(s, c, "TemplateElement"@)) by {
            children_are_below(s, id, n, list[i]);
            assert(list.contains(list[i]));
            assert(is_child(s, list[i] as int, id));
        }
    }
    if s.is_plain_template(id) {
        assert forall|c: int| #[trigger] is_child(s, c, id) implies is_a(s, c, "TemplateElement"@) by {
            children_are_below(s, id, n, c as usize);
            let i = choose|i: int| 0 <= i < list.len() && list[i] == c as usize;
            assert(s.is_kind(list[i] as int, "TemplateElement"@));
        }
    }
}

/// Node `c` is a property with a fixed key and a literal as its value, and no method or accessor.
pub open spec fn is_literal_property(s: ModuleSyntax, c: int, key: Text) -> bool {
    let node = s.nodes@[c];
    &&& is_a(s, c, "ObjectProperty"@)
    &&& !node.marks.0
    &&& !node.marks.1
    &&& node.marks.2
    &&& is_labelled(s, c, key)
    &&& node.operand matches Some(value)
    &&& is_literal(s, value as int)
}

pub open spec fn is_some_literal_property(s: ModuleSyntax, c: int) -> bool {
    exists|key: Text| #[trigger] is_literal_property(s, c, key)
}

/// The declarator `id` is that of the constant `name` of the module: a value whose declaration is
/// this node.
pub open spec fn is_constant(s: ModuleSyntax, id: int, name: Text) -> bool {
    &&& is_a(s, id, "VariableDeclarator"@)
    &&& s.nodes@[id].marks.0
    &&& is_labelled(s, id, name)
    &&& exists|i: int|
        {
            &&& #[trigger] is_top_symbol(s, i, name)
            &&& forall|j: int| 0 <= j < i ==> !#[trigger] is_top_symbol(s, j, name)
            &&& s.symbols@[i].is_value
            &&& !s.symbols@[i].is_type_import
            &&& s.symbols@[i].start == s.nodes@[id].start
            &&& s.symbols@[i].end == s.nodes@[id].end
        }
}

proof fn constants_are_constant(s: ModuleSyntax, id: int, name: Text)
    requires
        is_labelled(s, id, name),
    ensures
        (s.constant_at(id) is Some) == is_constant(s, id, name),
{
    let p = s.is_top_named(name);
    first_from_fits(p, 0, s.symbols@.len() as int);
    if s.constant_at(id) is Some {
        let i = s.constant_at(id)->0;
        assert(p(i));
        assert forall|j: int| 0 <= j < i implies !#[trigger] is_top_symbol(s, j, name) by {
            assert(!p(j));
        }
        assert(is_top_symbol(s, i, name));
    }
    if is_constant(s, id, name) {
        let i = choose|i: int|
            {
                &&& #[trigger] is_top_symbol(s, i, name)
                &&& forall|j: int| 0 <= j < i ==> !#[trigger] is_top_symbol(s, j, name)
                &&& s.symbols@[i].is_value
                &&& !s.symbols@[i].is_type_import
                &&& s.symbols@[i].start == s.nodes@[id].start
                &&& s.symbols@[i].end == s.nodes@[id].end
            };
        assert(p(i));
        if let Some(k) = s.top_named(name) {
            assert(p(k));
            if k < i {
                assert(is_top_symbol(s, k, name));
            }
            if i < k {
                assert(!p(i));
            }
        }
    }
}

/// The constant object that `id` declares is a registry: every property is a literal under a key
/// of its own.
pub open spec fn is_object_registry(s: ModuleSyntax, id: int, name: Text, value: int) -> bool {
    &&& is_constant(s, id, name)
    &&& s.nodes@[id].operand matches Some(v) && v == value
    &&& is_a(s, value, "ObjectExpression"@)
    &&& forall|c: int| #[trigger]
        is_child(s, c, value) ==> is_some_literal_property(s, c)
    &&& forall|c: int, d: int, key: Text|
        is_child(s, c, value) && is_child(s, d, value) && #[trigger] is_literal_property(s, c, key)
            && #[trigger] is_literal_property(s, d, key) ==> c == d
}

proof fn literal_properties_are_entries(s: ModuleSyntax, list: Seq<usize>, n: int)
    requires
        0 <= n <= list.len(),
        forall|i: int|
            0 <= i < list.len() ==> is_some_literal_property(s, (#[trigger] list[i]) as int),
        forall|i: int, j: int, key: Text|
            0 <= i < list.len() && 0 <= j < list.len() && #[trigger] is_literal_property(
                s,
                list[i] as int,
                key,
            ) && #[trigger] is_literal_property(s, list[j] as int, key) ==> i == j,
    ensures
        s.object_entries(list, n) matches Some(entries) && entries.len() == n && forall|i: int|
            0 <= i < n ==> {
                &&& (#[trigger] entries[i]).node == list[i]
                &&& entries[i].dependency is None
                &&& is_literal_property(s, list[i] as int, entries[i].key)
            },
    decreases n,
{
    assert(s.nodes.len() == s.nodes@.len() && s.symbols.len() == s.symbols@.len());
    if n > 0 {
        literal_properties_are_entries(s, list, n - 1);
        let before = s.object_entries(list, n - 1)->0;
        let id = list[n - 1] as int;
        assert(is_some_literal_property(s, list[n - 1] as int));
        let key = choose|key: Text| #[trigger] is_literal_property(s, id, key);
        let value = s.nodes@[id].operand->0 as int;
        literals_are_static(s, value);
        assert(!has_key(before, key)) by {
            if has_key(before, key) {
                let i = choose|i: int| 0 <= i < before.len() && (#[trigger] before[i]).key == key;
                assert(is_literal_property(s, list[i] as int, key));
            }
        }
        assert(s.label_of(id) == Some(key));
    }
}

proof fn entries_are_literal_properties(s: ModuleSyntax, list: Seq<usize>, n: int)
    requires
        0 <= n <= list.len(),
        s.object_entries(list, n) is Some,
    ensures
        s.object_entries(list, n)->0.len() == n,
        forall|i: int|
            0 <= i < n ==> {
                &&& (#[trigger] s.object_entries(list, n)->0[i]).node == list[i]
                &&& is_literal_property(s, list[i] as int, s.object_entries(list, n)->0[i].key)
            },
        forall|i: int, j: int|
            0 <= i < j < n ==> s.object_entries(list, n)->0[i].key != s.object_entries(list, n)->0[j].key,
    decreases n,
{
    assert(s.nodes.len() == s.nodes@.len() && s.symbols.len() == s.symbols@.len());
    if n > 0 {
        entries_are_literal_properties(s, list, n - 1);
        let before = s.object_entries(list, n - 1)->0;
        let entries = s.object_entries(list, n)->0;
        let id = list[n - 1] as int;
        let value = s.operand_of(id)->0;
        literals_are_static(s, value);
        assert forall|i: int, j: int| 0 <= i < j < n implies entries[i].key != entries[j].key by {
            if j == n - 1 {
                assert(before[i].key == entries[i].key);
            } else {
                assert(before[i].key != before[j].key);
            }
        }
        assert forall|i: int| 0 <= i < n implies {
            &&& (#[trigger] entries[i]).node == list[i]
            &&& is_literal_property(s, list[i] as int, entries[i].key)
        } by {
            if i < n - 1 {
                assert(entries[i] == before[i]);
            }
        }
    }
}

/// A constant object of literals under different keys is a registry, with one entry for each
/// property.
pub proof fn objects_of_literals_are_registries(
    s: ModuleSyntax,
    names: Map<Text, Text>,
    id: int,
    name: Text,
    value: int,
)
    requires
        is_object_registry(s, id, name, value),
    ensures
        s.registry_at(names, id) matches Some(shape) && {
            &&& shape.collection == value
            &&& is_top_symbol(s, shape.symbol as int, name)
            &&& forall|c: int, key: Text|
                is_child(s, c, value) && #[trigger] is_literal_property(s, c, key) ==> exists|i: int|
                    0 <= i < shape.entries.len() && #[trigger] shape.entries[i] == (EntryModel {
                        key,
                        node: c as usize,
                        dependency: None,
                    })
            &&& forall|i: int|
                0 <= i < shape.entries.len() ==> is_child(
                    s,
                    (#[trigger] shape.entries[i]).node as int,
                    value,
                )
        },
{
    assert(s.nodes.len() == s.nodes@.len() && s.symbols.len() == s.symbols@.len());
    constants_are_constant(s, id, name);
    let list = s.below(value);
    let n = s.nodes@.len() as int;
    assert forall|i: int| 0 <= i < list.len() implies is_some_literal_property(
        s,
        (#[trigger] list[i]) as int,
    ) by {
        children_are_below(s, value, n, list[i]);
        assert(list.contains(list[i]));
        assert(is_child(s, list[i] as int, value));
    }
    assert forall|i: int, j: int, key: Text|
        0 <= i < list.len() && 0 <= j < list.len() && #[trigger] is_literal_property(
            s,
            list[i] as int,
            key,
        ) && #[trigger] is_literal_property(s, list[j] as int, key) implies i == j by {
        children_are_below(s, value, n, list[i]);
        children_are_below(s, value, n, list[j]);
        assert(list.contains(list[i]) && list.contains(list[j]));
        assert(is_child(s, list[i] as int, value) && is_child(s, list[j] as int, value));
        if i < j {
            assert(list[i] != list[j]);
        }
        if j < i {
            assert(list[j] != list[i]);
        }
    }
    literal_properties_are_entries(s, list, list.len() as int);
    let entries = s.object_entries(list, list.len() as int)->0;
    let shape = s.registry_at(names, id)->0;
    let at = s.constant_at(id)->0;
    let p = s.is_top_named(name);
    first_from_fits(p, 0, s.symbols@.len() as int);
    assert(p(at));
    assert(is_top_symbol(s, at, name));
    assert forall|c: int, key: Text|
        is_child(s, c, value) && #[trigger] is_literal_property(s, c, key) implies exists|i: int|
            0 <= i < shape.entries.len() && #[trigger] shape.entries[i] == (EntryModel {
                key,
                node: c as usize,
                dependency: None,
            }) by {
        children_are_below(s, value, n, c as usize);
        let i = choose|i: int| 0 <= i < list.len() && list[i] == c as usize;
        assert(entries[i].node == list[i]);
        assert(entries[i].key == key);
        assert(shape.entries[i] == (EntryModel { key, node: c as usize, dependency: None }));
    }
    assert forall|i: int| 0 <= i < shape.entries.len() implies is_child(
        s,
        (#[trigger] shape.entries[i]).node as int,
        value,
    ) by {
        children_are_below(s, value, n, list[i]);
        assert(list.contains(list[i]));
        assert(entries[i].node == list[i]);
    }
}

/// Only constants are registries, and an object only where every property is a literal under a
/// key of its own.
pub proof fn only_objects_of_literals_are_registries(
    s: ModuleSyntax,
    names: Map<Text, Text>,
    id: int,
    name: Text,
    value: int,
)
    requires
        is_labelled(s, id, name),
        s.registry_at(names, id) is Some,
        s.nodes@[id].operand matches Some(v) && v == value,
    ensures
        is_constant(s, id, name),
        is_a(s, value, "ObjectExpression"@) || is_a(s, value, "ArrayExpression"@),
        is_a(s, value, "ObjectExpression"@) ==> is_object_registry(s, id, name, value),
{
    assert(s.nodes.len() == s.nodes@.len() && s.symbols.len() == s.symbols@.len());
    constants_are_constant(s, id, name);
    if is_a(s, value, "ObjectExpression"@) {
        let list = s.below(value);
        let n = s.nodes@.len() as int;
        entries_are_literal_properties(s, list, list.len() as int);
        let entries = s.object_entries(list, list.len() as int)->0;
        assert forall|c: int| #[trigger] is_child(s, c, value) implies is_some_literal_property(s, c) by {
            children_are_below(s, value, n, c as usize);
            let i = choose|i: int| 0 <= i < list.len() && list[i] == c as usize;
            assert(entries[i].node == list[i]);
            assert(is_literal_property(s, c, entries[i].key));
        }
        assert forall|c: int, d: int, key: Text|
            is_child(s, c, value) && is_child(s, d, value) && #[trigger] is_literal_property(s, c, key)
                && #[trigger] is_literal_property(s, d, key) implies c == d by {
            children_are_below(s, value, n, c as usize);
            children_are_below(s, value, n, d as usize);
            let i = choose|i: int| 0 <= i < list.len() && list[i] == c as usize;
            let j = choose|j: int| 0 <= j < list.len() && list[j] == d as usize;
            assert(entries[i].node == list[i] && entries[j].node == list[j]);
            assert(entries[i].key == key && entries[j].key == key);
        }
    }
}

/// The declared registries of a module are its registries; of several under one name the last
/// counts.
pub proof fn declared_registries_are_registries(
    s: ModuleSyntax,
    names: Map<Text, Text>,
    n: int,
    id: int,
    name: Text,
    shape: RegistryModel,
)
    requires
        0 <= id < n <= s.nodes@.len(),
        is_labelled(s, id, name),
        s.registry_at(names, id) == Some(shape),
        forall|later: int|
            id < later < n && #[trigger] is_labelled(s, later, name) ==> s.registry_at(names, later) is None,
    ensures
        s.registries_among(names, n).dom().contains(name),
        s.registries_among(names, n)[name] == shape,
    decreases n,
{
    if n - 1 > id {
        declared_registries_are_registries(s, names, n - 1, id, name, shape);
        if let Some(other) = s.registry_at(names, n - 1) {
            assert(!is_labelled(s, n - 1, name));
        }
    }
}

/// A module has no registry that it does not declare.
pub proof fn registries_are_declared(s: ModuleSyntax, names: Map<Text, Text>, n: int, name: Text)
    requires
        0 <= n <= s.nodes@.len(),
        s.registries_among(names, n).dom().contains(name),
    ensures
        exists|id: int|
            0 <= id < n && #[trigger] is_labelled(s, id, name) && s.registry_at(names, id) == Some(
                s.registries_among(names, n)[name],
            ),
    decreases n,
{
    if n > 0 {
        match s.registry_at(names, n - 1) {
            Some(shape) if s.label_of(n - 1)->0 == name => {
                assert(s.label_of(n - 1) is Some);
                assert(is_labelled(s, n - 1, name));
            },
            _ => {
                registries_are_declared(s, names, n - 1, name);
            },
        }
    }
}

/// Each entry of a registry is told by its own text and holds what it names.
pub proof fn entries_are_told_by_their_text(s: ModuleSyntax, source: Text, name: Text, i: int)
    requires
        s.registry_models().dom().contains(name),
        0 <= i < s.registry_models()[name].entries.len(),
        forall|j: int|
            i < j < s.registry_models()[name].entries.len() ==> (
            #[trigger] s.registry_models()[name].entries[j]).key != s.registry_models()[name].entries[i].key,
    ensures
        ({
            let entry = s.registry_models()[name].entries[i];
            let info = s.module(source).registries[name];
            &&& s.module(source).registries.dom().contains(name)
            &&& info.entry_order.len() == s.registry_models()[name].entries.len()
            &&& info.entry_order[i] == entry.key
            &&& info.entries.dom().contains(entry.key)
            &&& info.entries[entry.key].dependency == entry.dependency
            &&& info.entries[entry.key].fingerprint == text_at(
                source,
                s.nodes@[entry.node as int].start as int,
                s.nodes@[entry.node as int].end as int,
            )
        }),
{
    let entries = s.registry_models()[name].entries;
    entries_hold(s, source, entries, i, entries.len() as int);
}

proof fn entries_hold(s: ModuleSyntax, source: Text, entries: Seq<EntryModel>, i: int, n: int)
    requires
        0 <= i < n <= entries.len(),
        forall|j: int| i < j < entries.len() ==> (#[trigger] entries[j]).key != entries[i].key,
    ensures
        s.entries_by_key(source, entries, n).dom().contains(entries[i].key),
        s.entries_by_key(source, entries, n)[entries[i].key] == s.entry_info(source, entries[i]),
    decreases n,
{
    if n - 1 > i {
        entries_hold(s, source, entries, i, n - 1);
        assert(entries[n - 1].key != entries[i].key);
    }
}

/// The property that reference `k` reads of what it is to: the name of the member expression
/// around it, where that is no computed one and is neither called, constructed, used as a tag nor
/// an operand.
pub open spec fn reads_property(s: ModuleSyntax, k: int, key: Text) -> bool {
    let id = s.references@[k].node as int;
    let member = s.nodes@[id].parent as int;
    let parent = s.nodes@[member].parent as int;
    let object = s.nodes@[s.nodes@[member].operand->0 as int];
    &&& 0 <= id < s.nodes@.len()
    &&& 0 <= member < s.nodes@.len()
    &&& s.nodes@[member].operand is Some
    &&& 0 <= s.nodes@[member].operand->0 < s.nodes@.len()
    &&& is_a(s, member, "StaticMemberExpression"@) || is_a(s, member, "ComputedMemberExpression"@)
        || is_a(s, member, "PrivateFieldExpression"@)
    &&& object.start == s.nodes@[id].start
    &&& object.end == s.nodes@[id].end
    &&& !s.nodes@[member].marks.0
    &&& !is_a(s, parent, "CallExpression"@)
    &&& !is_a(s, parent, "NewExpression"@)
    &&& !is_a(s, parent, "TaggedTemplateExpression"@)
    &&& !is_a(s, parent, "UnaryExpression"@)
    &&& is_labelled(s, member, key)
}

/// Reference `k` stands in the declaration of the value `name` and is to the other value `used`.
pub open spec fn is_value_use(s: ModuleSyntax, k: int, name: Text, used: Text) -> bool {
    let r = s.references@[k];
    let target = s.symbols@[r.symbol as int];
    &&& 0 <= k < s.references@.len()
    &&& !r.type_only
    &&& is_top_symbol(s, r.symbol as int, used)
    &&& target.is_value
    &&& !target.is_type_import
    &&& used != name
    &&& exists|c: int|
        {
            &&& #[trigger] is_top_symbol(s, c, name)
            &&& s.symbols@[c].is_value
            &&& !s.symbols@[c].is_type_import
            &&& s.symbols@[c].start <= r.start
            &&& r.end <= s.symbols@[c].end
        }
}

proof fn value_uses_are_uses(s: ModuleSyntax, k: int, name: Text, used: Text)
    ensures
        (s.is_use(name, false, k) && s.used_name(k) == used) == is_value_use(s, k, name, used),
{
    let r = s.references@[k];
    if s.is_use(name, false, k) && s.used_name(k) == used {
        let c = choose|c: int| #[trigger]
            s.is_owner(c, name, true) && s.declares_over(c, r.start, r.end);
        assert(is_top_symbol(s, c, name));
    }
    if is_value_use(s, k, name, used) {
        let c = choose|c: int|
            {
                &&& #[trigger] is_top_symbol(s, c, name)
                &&& s.symbols@[c].is_value
                &&& !s.symbols@[c].is_type_import
                &&& s.symbols@[c].start <= r.start
                &&& r.end <= s.symbols@[c].end
            };
        assert(s.is_owner(c, name, true) && s.declares_over(c, r.start, r.end));
    }
}

proof fn read_properties_are_keys(s: ModuleSyntax, k: int, key: Text)
    ensures
        (s.key_of(k) == Some(key)) == reads_property(s, k, key),
{
}

/// A symbol reads another by its properties where each of its uses reads a fixed property, and
/// then by these properties.
pub proof fn uses_may_read_properties(s: ModuleSyntax, source: Text, name: Text, used: Text, key: Text)
    requires
        s.top_named(name) is Some,
        name != crate::parser::MODULE_INIT@,
        s.module(source).symbols[name].dependencies.contains(used),
    ensures
        s.module(source).symbols[name].keyed_dependencies.dom().contains(used) <==> forall|k: int|
            #[trigger] is_value_use(s, k, name, used) ==> exists|x: Text| reads_property(s, k, x),
        s.module(source).symbols[name].keyed_dependencies.dom().contains(used) ==> (
        s.module(source).symbols[name].keyed_dependencies[used].contains(key) <==> exists|k: int|
            #[trigger] is_value_use(s, k, name, used) && reads_property(s, k, key)),
{
    let n = s.references@.len() as int;
    let model = s.symbol_model(source, name);
    assert(s.module(source).symbols[name] == model);
    assert forall|k: int| (s.is_use(name, false, k) && s.used_name(k) == used) == #[trigger]
        is_value_use(s, k, name, used) by {
        value_uses_are_uses(s, k, name, used);
    }
    assert forall|k: int, x: Text| (s.key_of(k) == Some(x)) == #[trigger] reads_property(s, k, x) by {
        read_properties_are_keys(s, k, x);
    }
    if s.is_loose(name, used, n) {
        let k = choose|k: int|
            0 <= k < n && #[trigger] s.is_use(name, false, k) && s.used_name(k) == used
                && s.key_of(k) is None;
        assert(is_value_use(s, k, name, used));
        assert forall|x: Text| !reads_property(s, k, x) by {}
    } else {
        assert forall|k: int| #[trigger] is_value_use(s, k, name, used) implies exists|x: Text|
            reads_property(s, k, x) by {
            assert(s.is_use(name, false, k));
            assert(reads_property(s, k, s.key_of(k)->0));
        }
        if s.reads_key(name, used, key, n) {
            let k = choose|k: int|
                0 <= k < n && #[trigger] s.is_use(name, false, k) && s.used_name(k) == used
                    && s.key_of(k) == Some(key);
            assert(is_value_use(s, k, name, used) && reads_property(s, k, key));
        }
        if exists|k: int| #[trigger] is_value_use(s, k, name, used) && reads_property(s, k, key) {
            let k = choose|k: int| #[trigger]
                is_value_use(s, k, name, used) && reads_property(s, k, key);
            assert(s.is_use(name, false, k));
        }
    }
}

} // verus!
