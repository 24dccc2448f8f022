//! What the syntax tree says of symbols, members and registries.
use vstd::prelude::*;

use crate::collections::{first_from, KeyMap};
use crate::order::Key;
use crate::parser::syntax::{text_view, ModuleSyntax};
use crate::text::same;

verus! {

impl ModuleSyntax {
    pub open spec fn is_node(self, id: int) -> bool {
        0 <= id < self.nodes@.len()
    }

    pub open spec fn is_kind(self, id: int, kind: Seq<char>) -> bool {
        self.is_node(id) && self.nodes@[id].kind@ == kind
    }

    pub open spec fn parent_of(self, id: int) -> int {
        if self.is_node(id) {
            self.nodes@[id].parent as int
        } else {
            -1
        }
    }

    pub open spec fn label_of(self, id: int) -> Option<Seq<char>> {
        if self.is_node(id) {
            text_view(self.nodes@[id].label)
        } else {
            None
        }
    }

    pub open spec fn operand_of(self, id: int) -> Option<int> {
        if self.is_node(id) && self.nodes@[id].operand is Some {
            Some(self.nodes@[id].operand->0 as int)
        } else {
            None
        }
    }

    /// The expression inside one that only adds parentheses or types.
    pub open spec fn inside(self, id: int) -> int {
        if self.is_node(id) && self.nodes@[id].wrapped is Some {
            self.nodes@[id].wrapped->0 as int
        } else {
            id
        }
    }

    /// Two nodes cover the same text.
    pub open spec fn same_span(self, a: int, b: int) -> bool {
        self.is_node(a) && self.is_node(b) && self.nodes@[a].start == self.nodes@[b].start
            && self.nodes@[a].end == self.nodes@[b].end
    }

    /// The first node covers the second.
    pub open spec fn covers(self, a: int, b: int) -> bool {
        self.is_node(a) && self.is_node(b) && self.nodes@[a].start <= self.nodes@[b].start
            && self.nodes@[b].end <= self.nodes@[a].end
    }

    /// The nodes below `id` among the first `n`, in order.
    pub open spec fn children(self, id: int, n: int) -> Seq<usize>
        decreases n,
    {
        if n <= 0 {
            Seq::empty()
        } else if self.nodes@[n - 1].parent == id && n - 1 != id {
            self.children(id, n - 1).push((n - 1) as usize)
        } else {
            self.children(id, n - 1)
        }
    }

    /// The nodes directly below `id`, in order.
    pub open spec fn below(self, id: int) -> Seq<usize> {
        self.children(id, self.nodes@.len() as int)
    }

    pub open spec fn is_member(self, id: int) -> bool {
        self.is_kind(id, "StaticMemberExpression"@) || self.is_kind(
            id,
            "ComputedMemberExpression"@,
        ) || self.is_kind(id, "PrivateFieldExpression"@)
    }

    /// Some node above `id`, no more than `n` steps up, is of this kind.
    pub open spec fn is_under(self, id: int, kind: Seq<char>, n: int) -> bool
        decreases n,
    {
        if n <= 0 || !self.is_node(id) {
            false
        } else {
            self.is_kind(self.parent_of(id), kind) || self.is_under(self.parent_of(id), kind, n - 1)
        }
    }

    /// A symbol of the whole module.
    pub open spec fn is_top(self, i: int) -> bool {
        0 <= i < self.symbols@.len() && self.symbols@[i].scope == self.root_scope
    }

    /// A symbol that exists at run time.
    pub open spec fn is_runtime(self, i: int) -> bool {
        self.symbols@[i].is_value && !self.symbols@[i].is_type_import
    }

    pub open spec fn is_top_named(self, name: Seq<char>) -> spec_fn(int) -> bool {
        |i: int| self.is_top(i) && self.symbols@[i].name@ == name
    }

    /// The first symbol of the module with this name.
    pub open spec fn top_named(self, name: Seq<char>) -> Option<int> {
        first_from(self.is_top_named(name), 0, self.symbols@.len() as int)
    }

    /// The `k`th reference is to symbol `i`.
    pub open spec fn refers(self, k: int, i: int) -> bool {
        0 <= k < self.references@.len() && self.references@[k].symbol == i
    }

    /// A symbol that is only mentioned as a type or in an array.
    pub open spec fn only_in_arrays(self, i: int) -> bool {
        forall|k: int| #[trigger]
            self.refers(k, i) ==> self.references@[k].type_only || self.is_kind(
                self.parent_of(self.references@[k].node as int),
                "ArrayExpression"@,
            )
    }

    /// A template without expressions: all its parts are text.
    pub open spec fn is_plain_template(self, id: int) -> bool {
        self.is_kind(id, "TemplateLiteral"@) && forall|i: int|
            0 <= i < self.below(id).len() ==> self.is_kind(
                #[trigger] self.below(id)[i] as int,
                "TemplateElement"@,
            )
    }

    /// A literal whose value never changes.
    pub open spec fn is_static_value(self, id: int) -> bool {
        self.is_kind(id, "BooleanLiteral"@) || self.is_kind(id, "NullLiteral"@) || self.is_kind(
            id,
            "NumericLiteral"@,
        ) || self.is_kind(id, "BigIntLiteral"@) || self.is_kind(id, "RegExpLiteral"@)
            || self.is_kind(id, "StringLiteral"@) || self.is_plain_template(id)
    }

    /// A property with a fixed key and a value, neither a method nor an accessor.
    pub open spec fn is_plain_property(self, id: int) -> bool {
        self.is_kind(id, "ObjectProperty"@) && !self.nodes@[id].marks.0 && !self.nodes@[id].marks.1
            && self.nodes@[id].marks.2
    }

    /// A property whose value is safe, no more than `depth` levels down.
    pub open spec fn is_safe_property(self, id: int, depth: int) -> bool
        decreases depth, 0int,
    {
        self.is_plain_property(id) && match self.operand_of(id) {
            Some(value) => if depth <= 0 {
                false
            } else {
                self.is_safe(value, depth - 1)
            },
            None => false,
        }
    }

    /// An array element whose value is safe.
    pub open spec fn is_safe_element(self, id: int, depth: int) -> bool
        decreases depth, 0int,
    {
        !self.is_kind(id, "SpreadElement"@) && !self.is_kind(id, "Elision"@) && depth > 0
            && self.is_safe(self.inside(id), depth - 1)
    }

    /// A value that holds no function, class, accessor, spread or gap.
    pub open spec fn is_safe(self, id: int, depth: int) -> bool
        decreases depth, 1int,
    {
        if self.is_kind(id, "ArrowFunctionExpression"@) || self.is_kind(id, "Function"@)
            || self.is_kind(id, "Class"@) {
            false
        } else if self.is_kind(id, "ObjectExpression"@) {
            forall|i: int|
                0 <= i < self.below(id).len() ==> self.is_safe_property(
                    #[trigger] self.below(id)[i] as int,
                    depth,
                )
        } else if self.is_kind(id, "ArrayExpression"@) {
            forall|i: int|
                0 <= i < self.below(id).len() ==> self.is_safe_element(
                    #[trigger] self.below(id)[i] as int,
                    depth,
                )
        } else {
            true
        }
    }

    /// The value of the property `name` after the first `n` properties, where all are safe and
    /// the value is a string.
    pub open spec fn name_among(self, list: Seq<usize>, n: int) -> Option<Option<Seq<char>>>
        decreases n,
    {
        if n <= 0 {
            Some(None)
        } else {
            let id = list[n - 1] as int;
            match self.name_among(list, n - 1) {
                None => None,
                Some(name) => if !self.is_safe_property(id, self.nodes@.len() as int) {
                    None
                } else if self.label_of(id) == Some("name"@) {
                    let value = self.operand_of(id)->0;
                    if self.is_kind(value, "StringLiteral"@) {
                        Some(self.label_of(value))
                    } else {
                        None
                    }
                } else {
                    Some(name)
                },
            }
        }
    }

    /// The name that an object gives itself as a registry entry.
    pub open spec fn entry_name(self, object: int) -> Option<Seq<char>> {
        match self.name_among(self.below(object), self.below(object).len() as int) {
            Some(Some(name)) => Some(name),
            _ => None,
        }
    }

    /// The symbol that a constant declarator declares at run time, where its own declaration is
    /// the one that counts.
    pub open spec fn constant_at(self, id: int) -> Option<int> {
        if self.is_kind(id, "VariableDeclarator"@) && self.nodes@[id].marks.0 {
            match self.label_of(id) {
                Some(name) => match self.top_named(name) {
                    Some(i) => if self.is_runtime(i) && self.symbols@[i].start == self.nodes@[id].start
                        && self.symbols@[i].end == self.nodes@[id].end {
                        Some(i)
                    } else {
                        None
                    },
                    None => None,
                },
                None => None,
            }
        } else {
            None
        }
    }

    /// The registry name of the object that a declarator declares, where the object is only
    /// mentioned in arrays.
    pub open spec fn named_object_at(self, id: int) -> Option<Seq<char>> {
        match self.constant_at(id) {
            Some(i) => match self.operand_of(id) {
                Some(value) => if self.is_kind(value, "ObjectExpression"@) && self.only_in_arrays(i) {
                    self.entry_name(value)
                } else {
                    None
                },
                None => None,
            },
            None => None,
        }
    }

    /// The registry names of the objects declared by the first `n` nodes.
    pub open spec fn named_objects(self, n: int) -> Map<Seq<char>, Seq<char>>
        decreases n,
    {
        if n <= 0 {
            Map::empty()
        } else {
            match self.named_object_at(n - 1) {
                Some(key) => self.named_objects(n - 1).insert(self.label_of(n - 1)->0, key),
                None => self.named_objects(n - 1),
            }
        }
    }
}

/// An entry of a registry: its key, its node, and the symbol that it holds.
pub struct EntryShape {
    pub key: String,
    pub node: usize,
    pub dependency: Option<String>,
}

pub ghost struct EntryModel {
    pub key: Seq<char>,
    pub node: usize,
    pub dependency: Option<Seq<char>>,
}

impl View for EntryShape {
    type V = EntryModel;

    open spec fn view(&self) -> EntryModel {
        EntryModel { key: self.key@, node: self.node, dependency: text_view(self.dependency) }
    }
}

pub open spec fn entry_models(list: Seq<EntryShape>) -> Seq<EntryModel> {
    list.map_values(|e: EntryShape| e@)
}

pub open spec fn has_key(list: Seq<EntryModel>, key: Seq<char>) -> bool {
    exists|i: int| 0 <= i < list.len() && (#[trigger] list[i]).key == key
}

/// A registry: the symbol that it is declared as, the node of the collection, and its entries.
pub struct RegistryShape {
    pub symbol: usize,
    pub collection: usize,
    pub entries: Vec<EntryShape>,
}

pub ghost struct RegistryModel {
    pub symbol: usize,
    pub collection: usize,
    pub entries: Seq<EntryModel>,
}

impl View for RegistryShape {
    type V = RegistryModel;

    open spec fn view(&self) -> RegistryModel {
        RegistryModel {
            symbol: self.symbol,
            collection: self.collection,
            entries: entry_models(self.entries@),
        }
    }
}

pub open spec fn shape_models(m: Map<Seq<char>, RegistryShape>) -> Map<Seq<char>, RegistryModel> {
    m.map_values(|s: RegistryShape| s@)
}

impl ModuleSyntax {
    /// The entries that the first `n` properties of an object make, where each is a literal under
    /// a key of its own.
    pub open spec fn object_entries(self, list: Seq<usize>, n: int) -> Option<Seq<EntryModel>>
        decreases n,
    {
        if n <= 0 {
            Some(Seq::empty())
        } else {
            let id = list[n - 1];
            match self.object_entries(list, n - 1) {
                None => None,
                Some(before) => match (self.operand_of(id as int), self.label_of(id as int)) {
                    (Some(value), Some(key)) => if self.is_plain_property(id as int)
                        && self.is_static_value(value) && !has_key(before, key) {
                        Some(before.push((EntryModel { key, node: id, dependency: None })))
                    } else {
                        None
                    },
                    _ => None,
                },
            }
        }
    }

    /// The entries that the first `n` elements of an array make, where each names an object with
    /// a registry name of its own.
    pub open spec fn array_entries(
        self,
        names: Map<Seq<char>, Seq<char>>,
        list: Seq<usize>,
        n: int,
    ) -> Option<Seq<EntryModel>>
        decreases n,
    {
        if n <= 0 {
            Some(Seq::empty())
        } else {
            let id = list[n - 1];
            match self.array_entries(names, list, n - 1) {
                None => None,
                Some(before) => match self.label_of(id as int) {
                    Some(name) => if self.is_kind(id as int, "IdentifierReference"@)
                        && names.dom().contains(name) && !has_key(before, names[name]) {
                        Some(
                            before.push(
                                (EntryModel {
                                    key: names[name],
                                    node: id,
                                    dependency: Some(name),
                                }),
                            ),
                        )
                    } else {
                        None
                    },
                    None => None,
                },
            }
        }
    }

    /// The registry that a declarator declares.
    pub open spec fn registry_at(self, names: Map<Seq<char>, Seq<char>>, id: int) -> Option<
        RegistryModel,
    > {
        match self.constant_at(id) {
            Some(i) => match self.operand_of(id) {
                Some(value) => {
                    let list = self.below(value);
                    let entries = if self.is_kind(value, "ObjectExpression"@) {
                        self.object_entries(list, list.len() as int)
                    } else if self.is_kind(value, "ArrayExpression"@) {
                        self.array_entries(names, list, list.len() as int)
                    } else {
                        None
                    };
                    match entries {
                        Some(entries) => Some(
                            (RegistryModel {
                                symbol: i as usize,
                                collection: value as usize,
                                entries,
                            }),
                        ),
                        None => None,
                    }
                },
                None => None,
            },
            None => None,
        }
    }

    /// The symbol and the collection of a registry are there.
    pub open spec fn shape_fits(self, shape: RegistryModel) -> bool {
        self.is_top(shape.symbol as int) && self.is_node(shape.collection as int) && forall|i: int|
            0 <= i < shape.entries.len() ==> self.is_node((#[trigger] shape.entries[i]).node as int)
    }

    /// The registries that the first `n` nodes declare, by name.
    pub open spec fn registries_among(self, names: Map<Seq<char>, Seq<char>>, n: int) -> Map<
        Seq<char>,
        RegistryModel,
    >
        decreases n,
    {
        if n <= 0 {
            Map::empty()
        } else {
            match self.registry_at(names, n - 1) {
                Some(shape) => self.registries_among(names, n - 1).insert(
                    self.label_of(n - 1)->0,
                    shape,
                ),
                None => self.registries_among(names, n - 1),
            }
        }
    }

    /// The registries of the module.
    pub open spec fn registry_models(self) -> Map<Seq<char>, RegistryModel> {
        let n = self.nodes@.len() as int;
        self.registries_among(self.named_objects(n), n)
    }
}

pub open spec fn name_models(m: Map<Seq<char>, String>) -> Map<Seq<char>, Seq<char>> {
    m.map_values(|s: String| s@)
}

impl ModuleSyntax {
    pub(crate) fn kind_is(&self, id: usize, kind: &str) -> (r: bool)
        ensures
            r == self.is_kind(id as int, kind@),
    {
        id < self.nodes.len() && same(self.nodes[id].kind.as_str(), kind)
    }

    pub(crate) fn label(&self, id: usize) -> (r: Option<String>)
        ensures
            text_view(r) == self.label_of(id as int),
    {
        if id < self.nodes.len() {
            match &self.nodes[id].label {
                Some(text) => Some(text.clone()),
                None => None,
            }
        } else {
            None
        }
    }

    pub(crate) fn label_is(&self, id: usize, text: &str) -> (r: bool)
        ensures
            r == (self.label_of(id as int) == Some(text@)),
    {
        match self.label(id) {
            Some(label) => same(label.as_str(), text),
            None => false,
        }
    }

    pub(crate) fn operand(&self, id: usize) -> (r: Option<usize>)
        ensures
            r is Some == self.operand_of(id as int) is Some,
            r is Some ==> self.operand_of(id as int) == Some(r->0 as int),
    {
        if id < self.nodes.len() {
            self.nodes[id].operand
        } else {
            None
        }
    }

    pub(crate) fn within(&self, id: usize) -> (r: usize)
        ensures
            r == self.inside(id as int),
    {
        if id < self.nodes.len() {
            match self.nodes[id].wrapped {
                Some(inner) => inner,
                None => id,
            }
        } else {
            id
        }
    }

    /// The nodes directly below `id`.
    pub(crate) fn list_below(&self, id: usize) -> (r: Vec<usize>)
        ensures
            r@ == self.below(id as int),
    {
        let mut out: Vec<usize> = Vec::new();
        let mut i: usize = 0;
        while i < self.nodes.len()
            invariant
                i <= self.nodes.len(),
                out@ == self.children(id as int, i as int),
            decreases self.nodes.len() - i,
        {
            if self.nodes[i].parent == id && i != id {
                out.push(i);
            }
            i += 1;
        }
        out
    }

    pub(crate) fn member_is(&self, id: usize) -> (r: bool)
        ensures
            r == self.is_member(id as int),
    {
        self.kind_is(id, "StaticMemberExpression") || self.kind_is(id, "ComputedMemberExpression")
            || self.kind_is(id, "PrivateFieldExpression")
    }

    pub(crate) fn lies_under(&self, id: usize, kind: &str) -> (r: bool)
        ensures
            r == self.is_under(id as int, kind@, self.nodes@.len() as int),
    {
        let mut at = id;
        let mut left: usize = self.nodes.len();
        while left > 0 && at < self.nodes.len()
            invariant
                self.is_under(at as int, kind@, left as int) == self.is_under(
                    id as int,
                    kind@,
                    self.nodes@.len() as int,
                ),
            decreases left,
        {
            let parent = self.nodes[at].parent;
            if self.kind_is(parent, kind) {
                return true;
            }
            at = parent;
            left -= 1;
        }
        false
    }

    pub(crate) fn top_is(&self, i: usize) -> (r: bool)
        ensures
            r == self.is_top(i as int),
    {
        i < self.symbols.len() && self.symbols[i].scope == self.root_scope
    }

    pub(crate) fn find_top(&self, name: &str) -> (r: Option<usize>)
        ensures
            match r {
                Some(i) => self.top_named(name@) == Some(i as int) && self.is_top(i as int)
                    && self.symbols@[i as int].name@ == name@,
                None => self.top_named(name@) is None,
            },
    {
        let ghost p = self.is_top_named(name@);
        let ghost n = self.symbols@.len() as int;
        let mut i: usize = 0;
        while i < self.symbols.len()
            invariant
                i <= self.symbols.len(),
                p == self.is_top_named(name@),
                n == self.symbols@.len(),
                first_from(p, i as int, n) == first_from(p, 0, n),
            decreases self.symbols.len() - i,
        {
            if self.top_is(i) && same(self.symbols[i].name.as_str(), name) {
                assert(p(i as int));
                return Some(i);
            }
            assert(!p(i as int));
            i += 1;
        }
        None
    }

    fn arrays_only(&self, i: usize) -> (r: bool)
        ensures
            r == self.only_in_arrays(i as int),
    {
        let mut k: usize = 0;
        while k < self.references.len()
            invariant
                k <= self.references.len(),
                forall|j: int|
                    0 <= j < k && #[trigger] self.refers(j, i as int)
                        ==> self.references@[j].type_only || self.is_kind(
                        self.parent_of(self.references@[j].node as int),
                        "ArrayExpression"@,
                    ),
            decreases self.references.len() - k,
        {
            let reference = &self.references[k];
            if reference.symbol == i && !reference.type_only {
                let in_array = reference.node < self.nodes.len() && self.kind_is(
                    self.nodes[reference.node].parent,
                    "ArrayExpression",
                );
                if !in_array {
                    assert(self.refers(k as int, i as int));
                    return false;
                }
            }
            k += 1;
        }
        true
    }

    fn static_value(&self, id: usize) -> (r: bool)
        ensures
            r == self.is_static_value(id as int),
    {
        if self.kind_is(id, "BooleanLiteral") || self.kind_is(id, "NullLiteral") || self.kind_is(
            id,
            "NumericLiteral",
        ) || self.kind_is(id, "BigIntLiteral") || self.kind_is(id, "RegExpLiteral") || self.kind_is(
            id,
            "StringLiteral",
        ) {
            return true;
        }
        if !self.kind_is(id, "TemplateLiteral") {
            return false;
        }
        let list = self.list_below(id);
        let mut i: usize = 0;
        while i < list.len()
            invariant
                i <= list.len(),
                list@ == self.below(id as int),
                self.is_kind(id as int, "TemplateLiteral"@),
                !self.is_kind(id as int, "BooleanLiteral"@),
                !self.is_kind(id as int, "NullLiteral"@),
                !self.is_kind(id as int, "NumericLiteral"@),
                !self.is_kind(id as int, "BigIntLiteral"@),
                !self.is_kind(id as int, "RegExpLiteral"@),
                !self.is_kind(id as int, "StringLiteral"@),
                forall|k: int|
                    0 <= k < i ==> self.is_kind(#[trigger] list@[k] as int, "TemplateElement"@),
            decreases list.len() - i,
        {
            if !self.kind_is(list[i], "TemplateElement") {
                assert(!self.is_kind(self.below(id as int)[i as int] as int, "TemplateElement"@));
                return false;
            }
            i += 1;
        }
        true
    }

    fn plain_property(&self, id: usize) -> (r: bool)
        ensures
            r == self.is_plain_property(id as int),
    {
        self.kind_is(id, "ObjectProperty") && !self.nodes[id].marks.0 && !self.nodes[id].marks.1
            && self.nodes[id].marks.2
    }

    fn safe_property(&self, id: usize, depth: usize) -> (r: bool)
        ensures
            r == self.is_safe_property(id as int, depth as int),
        decreases depth, 0nat,
    {
        if !self.plain_property(id) {
            return false;
        }
        match self.operand(id) {
            Some(value) => if depth == 0 {
                false
            } else {
                self.safe(value, depth - 1)
            },
            None => false,
        }
    }

    fn safe_element(&self, id: usize, depth: usize) -> (r: bool)
        ensures
            r == self.is_safe_element(id as int, depth as int),
        decreases depth, 0nat,
    {
        if self.kind_is(id, "SpreadElement") || self.kind_is(id, "Elision") || depth == 0 {
            return false;
        }
        self.safe(self.within(id), depth - 1)
    }

    fn safe(&self, id: usize, depth: usize) -> (r: bool)
        ensures
            r == self.is_safe(id as int, depth as int),
        decreases depth, 1nat,
    {
        if self.kind_is(id, "ArrowFunctionExpression") || self.kind_is(id, "Function")
            || self.kind_is(id, "Class") {
            return false;
        }
        let object = self.kind_is(id, "ObjectExpression");
        let array = self.kind_is(id, "ArrayExpression");
        if !object && !array {
            return true;
        }
        let list = self.list_below(id);
        let mut i: usize = 0;
        while i < list.len()
            invariant
                i <= list.len(),
                list@ == self.below(id as int),
                object == self.is_kind(id as int, "ObjectExpression"@),
                array == self.is_kind(id as int, "ArrayExpression"@),
                object || array,
                !self.is_kind(id as int, "ArrowFunctionExpression"@),
                !self.is_kind(id as int, "Function"@),
                !self.is_kind(id as int, "Class"@),
                forall|k: int|
                    0 <= k < i ==> if object {
                        self.is_safe_property(#[trigger] list@[k] as int, depth as int)
                    } else {
                        self.is_safe_element(list@[k] as int, depth as int)
                    },
            decreases list.len() - i,
        {
            let ok = if object {
                self.safe_property(list[i], depth)
            } else {
                self.safe_element(list[i], depth)
            };
            if !ok {
                proof {
                    let bad = self.below(id as int)[i as int] as int;
                    if object {
                        assert(!self.is_safe_property(bad, depth as int));
                    } else {
                        assert(!self.is_safe_element(bad, depth as int));
                    }
                }
                return false;
            }
            i += 1;
        }
        proof {
            if object {
                assert forall|k: int| 0 <= k < self.below(id as int).len() implies self.is_safe_property(
                    #[trigger] self.below(id as int)[k] as int,
                    depth as int,
                ) by {
                    assert(list@[k] == self.below(id as int)[k]);
                }
            } else {
                assert forall|k: int| 0 <= k < self.below(id as int).len() implies self.is_safe_element(
                    #[trigger] self.below(id as int)[k] as int,
                    depth as int,
                ) by {
                    assert(list@[k] == self.below(id as int)[k]);
                }
            }
        }
        true
    }

    fn name_of_entry(&self, object: usize) -> (r: Option<String>)
        ensures
            text_view(r) == self.entry_name(object as int),
    {
        let list = self.list_below(object);
        let ghost l = self.below(object as int);
        let mut name: Option<String> = None;
        let mut i: usize = 0;
        while i < list.len()
            invariant
                i <= list.len(),
                list@ == l,
                l == self.below(object as int),
                self.name_among(l, i as int) == Some(text_view(name)),
            decreases list.len() - i,
        {
            let id = list[i];
            if !self.safe_property(id, self.nodes.len()) {
                proof {
                    self.name_stays_lost(l, i + 1);
                }
                return None;
            }
            if self.label_is(id, "name") {
                let value = self.operand(id).unwrap();
                if !self.kind_is(value, "StringLiteral") {
                    proof {
                        self.name_stays_lost(l, i + 1);
                    }
                    return None;
                }
                name = self.label(value);
            }
            i += 1;
        }
        name
    }

    proof fn name_stays_lost(self, list: Seq<usize>, n: int)
        requires
            0 <= n <= list.len(),
            self.name_among(list, n) is None,
        ensures
            self.name_among(list, list.len() as int) is None,
        decreases list.len() - n,
    {
        if n < list.len() {
            self.name_stays_lost(list, n + 1);
        }
    }

    proof fn entries_stay_lost(self, list: Seq<usize>, n: int)
        requires
            0 <= n <= list.len(),
            self.object_entries(list, n) is None,
        ensures
            self.object_entries(list, list.len() as int) is None,
        decreases list.len() - n,
    {
        if n < list.len() {
            self.entries_stay_lost(list, n + 1);
        }
    }

    proof fn elements_stay_lost(self, names: Map<Seq<char>, Seq<char>>, list: Seq<usize>, n: int)
        requires
            0 <= n <= list.len(),
            self.array_entries(names, list, n) is None,
        ensures
            self.array_entries(names, list, list.len() as int) is None,
        decreases list.len() - n,
    {
        if n < list.len() {
            self.elements_stay_lost(names, list, n + 1);
        }
    }

    fn constant(&self, id: usize) -> (r: Option<usize>)
        ensures
            match r {
                Some(i) => self.constant_at(id as int) == Some(i as int) && self.label_of(id as int) is Some
                    && self.is_top(i as int),
                None => self.constant_at(id as int) is None,
            },
    {
        if !self.kind_is(id, "VariableDeclarator") || !self.nodes[id].marks.0 {
            return None;
        }
        match self.label(id) {
            Some(name) => match self.find_top(name.as_str()) {
                Some(i) => {
                    let symbol = &self.symbols[i];
                    if symbol.is_value && !symbol.is_type_import && symbol.start
                        == self.nodes[id].start && symbol.end == self.nodes[id].end {
                        Some(i)
                    } else {
                        None
                    }
                },
                None => None,
            },
            None => None,
        }
    }

    /// The registry names of the objects that the module declares.
    fn list_named_objects(&self) -> (r: KeyMap<String, String>)
        ensures
            name_models(r@) == self.named_objects(self.nodes@.len() as int),
    {
        let mut out: KeyMap<String, String> = KeyMap::new();
        let mut i: usize = 0;
        assert(name_models(out@) =~= self.named_objects(0));
        while i < self.nodes.len()
            invariant
                i <= self.nodes.len(),
                name_models(out@) == self.named_objects(i as int),
            decreases self.nodes.len() - i,
        {
            match self.constant(i) {
                Some(symbol) => match self.operand(i) {
                    Some(value) => if self.kind_is(value, "ObjectExpression") && self.arrays_only(
                        symbol,
                    ) {
                        match self.name_of_entry(value) {
                            Some(key) => {
                                let name = self.label(i).unwrap();
                                let ghost before = name_models(out@);
                                let ghost n = name@;
                                let ghost k = key@;
                                out.insert(name, key);
                                assert(name_models(out@) =~= before.insert(n, k));
                            },
                            None => {},
                        }
                    },
                    None => {},
                },
                None => {},
            }
            i += 1;
        }
        out
    }

    spec fn nodes_of(self, list: Seq<EntryShape>) -> bool {
        forall|i: int| 0 <= i < list.len() ==> self.is_node((#[trigger] list[i]).node as int)
    }

    fn knows_key(list: &Vec<EntryShape>, key: &String) -> (r: bool)
        ensures
            r == has_key(entry_models(list@), key@),
    {
        let ghost all = entry_models(list@);
        let mut i: usize = 0;
        while i < list.len()
            invariant
                i <= list.len(),
                all == entry_models(list@),
                forall|k: int| 0 <= k < i ==> (#[trigger] all[k]).key != key@,
            decreases list.len() - i,
        {
            if list[i].key == *key {
                assert(all[i as int].key == key@);
                return true;
            }
            i += 1;
        }
        false
    }

    fn list_object_entries(&self, object: usize) -> (r: Option<Vec<EntryShape>>)
        ensures
            ({
                let l = self.below(object as int);
                match r {
                    Some(list) => self.nodes_of(list@) && self.object_entries(l, l.len() as int) == Some(entry_models(list@)),
                    None => self.object_entries(l, l.len() as int) is None,
                }
            }),
    {
        let list = self.list_below(object);
        let ghost l = self.below(object as int);
        let mut out: Vec<EntryShape> = Vec::new();
        let mut i: usize = 0;
        assert(entry_models(out@) =~= Seq::empty());
        while i < list.len()
            invariant
                i <= list.len(),
                list@ == l,
                l == self.below(object as int),
                self.nodes_of(out@),
                self.object_entries(l, i as int) == Some(entry_models(out@)),
            decreases list.len() - i,
        {
            let id = list[i];
            let mut kept: bool = false;
            let ghost before = entry_models(out@);
            match (self.operand(id), self.label(id)) {
                (Some(value), Some(key)) => {
                    if self.plain_property(id) && self.static_value(value) && !Self::knows_key(
                        &out,
                        &key,
                    ) {
                        let item = EntryShape { key, node: id, dependency: None };
                        let ghost m = item@;
                        out.push(item);
                        assert(entry_models(out@) =~= before.push(m));
                        kept = true;
                    }
                },
                _ => {},
            }
            if !kept {
                proof {
                    assert(self.object_entries(l, i + 1) is None);
                    self.entries_stay_lost(l, i + 1);
                }
                return None;
            }
            i += 1;
        }
        Some(out)
    }

    fn list_array_entries(&self, names: &KeyMap<String, String>, array: usize) -> (r: Option<
        Vec<EntryShape>,
    >)
        ensures
            ({
                let l = self.below(array as int);
                match r {
                    Some(list) => self.nodes_of(list@) && self.array_entries(name_models(names@), l, l.len() as int) == Some(
                        entry_models(list@),
                    ),
                    None => self.array_entries(name_models(names@), l, l.len() as int) is None,
                }
            }),
    {
        let list = self.list_below(array);
        let ghost l = self.below(array as int);
        let ghost ns = name_models(names@);
        let mut out: Vec<EntryShape> = Vec::new();
        let mut i: usize = 0;
        assert(entry_models(out@) =~= Seq::empty());
        while i < list.len()
            invariant
                i <= list.len(),
                list@ == l,
                ns == name_models(names@),
                l == self.below(array as int),
                self.nodes_of(out@),
                self.array_entries(ns, l, i as int) == Some(entry_models(out@)),
            decreases list.len() - i,
        {
            let id = list[i];
            let mut kept: bool = false;
            let ghost before = entry_models(out@);
            match self.label(id) {
                Some(name) => if self.kind_is(id, "IdentifierReference") {
                    match names.get(&name) {
                        Some(key) => if !Self::knows_key(&out, key) {
                            let item = EntryShape {
                                key: key.clone(),
                                node: id,
                                dependency: Some(name),
                            };
                            let ghost m = item@;
                            out.push(item);
                            assert(entry_models(out@) =~= before.push(m));
                            kept = true;
                        },
                        None => {},
                    }
                },
                None => {},
            }
            if !kept {
                proof {
                    assert(self.array_entries(ns, l, i + 1) is None);
                    self.elements_stay_lost(ns, l, i + 1);
                }
                return None;
            }
            i += 1;
        }
        Some(out)
    }

    fn registry(&self, names: &KeyMap<String, String>, id: usize) -> (r: Option<RegistryShape>)
        ensures
            match r {
                Some(shape) => self.registry_at(name_models(names@), id as int) == Some(shape@)
                    && self.label_of(id as int) is Some && self.shape_fits(shape@),
                None => self.registry_at(name_models(names@), id as int) is None,
            },
    {
        match self.constant(id) {
            Some(symbol) => match self.operand(id) {
                Some(value) => {
                    let entries = if self.kind_is(value, "ObjectExpression") {
                        self.list_object_entries(value)
                    } else if self.kind_is(value, "ArrayExpression") {
                        self.list_array_entries(names, value)
                    } else {
                        None
                    };
                    match entries {
                        Some(entries) => Some(RegistryShape { symbol, collection: value, entries }),
                        None => None,
                    }
                },
                None => None,
            },
            None => None,
        }
    }

    /// The registries that the module declares, by name.
    pub(crate) fn list_registries(&self) -> (r: KeyMap<String, RegistryShape>)
        ensures
            shape_models(r@) == self.registry_models(),
            forall|n: Seq<char>| #[trigger]
                r@.dom().contains(n) ==> self.shape_fits(r@[n]@) && self.top_named(n) is Some,
    {
        let names = self.list_named_objects();
        let ghost ns = name_models(names@);
        let mut out: KeyMap<String, RegistryShape> = KeyMap::new();
        let mut i: usize = 0;
        assert(shape_models(out@) =~= self.registries_among(ns, 0));
        while i < self.nodes.len()
            invariant
                i <= self.nodes.len(),
                ns == name_models(names@),
                shape_models(out@) == self.registries_among(ns, i as int),
                forall|n: Seq<char>| #[trigger]
                    out@.dom().contains(n) ==> self.shape_fits(out@[n]@) && self.top_named(n) is Some,
            decreases self.nodes.len() - i,
        {
            match self.registry(&names, i) {
                Some(shape) => {
                    let name = self.label(i).unwrap();
                    let ghost before = shape_models(out@);
                    let ghost n = name@;
                    let ghost s = shape@;
                    out.insert(name, shape);
                    assert(shape_models(out@) =~= before.insert(n, s));
                },
                None => {},
            }
            i += 1;
        }
        out
    }
}

} // verus!
