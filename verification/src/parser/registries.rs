//! Registries of a module, and the maps that index them.
use vstd::prelude::*;

use crate::collections::{KeyMap, KeySet};
use crate::order::Key;
use crate::parser::model::{
    entry_info_views, registry_infos, texts, EntryInfoModel, RegistryInfoModel, Text,
};
use crate::parser::source::{location_at, text_at, SourceText};
use crate::parser::syntax::{text_view, ModuleSyntax};
use crate::parser::tree::{shape_models, EntryModel, RegistryShape};
use crate::parser::{RegistryEntryInfo, RegistryInfo};
use crate::text::same;

verus! {

impl ModuleSyntax {
    pub open spec fn entry_info(self, source: Text, entry: EntryModel) -> EntryInfoModel {
        let node = self.nodes@[entry.node as int];
        EntryInfoModel {
            fingerprint: text_at(source, node.start as int, node.end as int),
            dependency: entry.dependency,
            location: location_at(source, node.start as int),
        }
    }

    /// The first `n` entries, by key.
    pub open spec fn entries_by_key(self, source: Text, entries: Seq<EntryModel>, n: int) -> Map<
        Text,
        EntryInfoModel,
    >
        decreases n,
    {
        if n <= 0 {
            Map::empty()
        } else {
            self.entries_by_key(source, entries, n - 1).insert(
                entries[n - 1].key,
                self.entry_info(source, entries[n - 1]),
            )
        }
    }

    pub open spec fn registry_info(self, source: Text, name: Text) -> RegistryInfoModel {
        let entries = self.registry_models()[name].entries;
        RegistryInfoModel {
            full_fingerprint: self.declaration_text(source, name),
            entry_order: entries.map_values(|e: EntryModel| e.key),
            entries: self.entries_by_key(source, entries, entries.len() as int),
        }
    }

    /// The registries of the module with the texts of their entries.
    pub open spec fn all_registries(self, source: Text) -> Map<Text, RegistryInfoModel> {
        Map::new(
            |name: Text| self.registry_models().dom().contains(name),
            |name: Text| self.registry_info(source, name),
        )
    }

    /// A declarator that makes a new `Map`.
    pub open spec fn makes_map(self, id: int) -> bool {
        self.is_kind(id, "VariableDeclarator"@) && match self.operand_of(id) {
            Some(value) => self.is_kind(value, "NewExpression"@) && match self.operand_of(value) {
                Some(callee) => self.is_kind(callee, "IdentifierReference"@) && self.label_of(callee)
                    == Some("Map"@),
                None => false,
            },
            None => false,
        }
    }

    /// A name that is bound to a new `Map`, where `Map` is the global one.
    pub open spec fn is_map_name(self, name: Text) -> bool {
        self.top_named("Map"@) is None && exists|id: int| #[trigger]
            self.makes_map(id) && self.label_of(id) == Some(name)
    }

    /// The identifier that a node is.
    pub open spec fn identifier(self, id: int) -> Option<Text> {
        if self.is_kind(id, "IdentifierReference"@) {
            self.label_of(id)
        } else {
            None
        }
    }

    /// The identifier of which a node of this form reads the property `property`.
    pub open spec fn property_owner(self, id: int, property: Text) -> Option<Text> {
        if self.is_kind(id, "StaticMemberExpression"@) && self.label_of(id) == Some(property) {
            match self.operand_of(id) {
                Some(object) => self.identifier(object),
                None => None,
            }
        } else {
            None
        }
    }

    /// The arguments of a call.
    pub open spec fn arguments(self, id: int) -> Seq<usize> {
        let list = self.below(id);
        if list.len() > 1 && self.is_kind(list[1] as int, "TSTypeParameterInstantiation"@) {
            list.skip(2)
        } else if list.len() > 0 {
            list.skip(1)
        } else {
            list
        }
    }

    /// The word behind `for` is `await`.
    pub open spec fn awaits(self, source: Text, id: int) -> bool {
        exists|k: int|
            0 <= k < self.tokens@.len() - 1 && (#[trigger] self.tokens@[k]).0 == self.nodes@[id].start
                && self.token_text(source, k + 1) == "await"@
    }

    pub open spec fn token_text(self, source: Text, k: int) -> Text {
        text_at(source, self.tokens@[k].0 as int, self.tokens@[k].1 as int)
    }

    /// The variable that a loop declares, where it declares one.
    pub open spec fn loop_variable(self, id: int) -> Option<Text> {
        let parts = self.below(id);
        if parts.len() > 0 && self.is_kind(parts[0] as int, "VariableDeclaration"@) && self.below(
            parts[0] as int,
        ).len() == 1 {
            self.label_of(self.below(parts[0] as int)[0] as int)
        } else {
            None
        }
    }

    /// The call that the body of a loop consists of.
    pub open spec fn loop_call(self, id: int) -> Option<int> {
        let parts = self.below(id);
        if parts.len() > 0 && self.is_kind(parts.last() as int, "BlockStatement"@) {
            let body = self.below(parts.last() as int);
            if body.len() == 1 && self.is_kind(body[0] as int, "ExpressionStatement"@) {
                match self.operand_of(body[0] as int) {
                    Some(call) => if self.is_kind(call, "CallExpression"@) {
                        Some(call)
                    } else {
                        None
                    },
                    None => None,
                }
            } else {
                None
            }
        } else {
            None
        }
    }

    /// A loop over a registry that puts every item into a map by its name: the registry and the
    /// map.
    pub open spec fn index_builder(self, source: Text, id: int) -> Option<(Text, Text)> {
        if !self.is_kind(id, "ForOfStatement"@) || self.awaits(source, id) {
            None
        } else {
            match (self.operand_of(id), self.loop_variable(id), self.loop_call(id)) {
                (Some(list), Some(item), Some(call)) => match (
                    self.identifier(list),
                    self.operand_of(call),
                ) {
                    (Some(registry), Some(callee)) => match self.property_owner(callee, "set"@) {
                        Some(map) => if self.arguments(call).len() == 2 && self.property_owner(
                            self.arguments(call)[0] as int,
                            "name"@,
                        ) == Some(item) && self.identifier(self.arguments(call)[1] as int) == Some(
                            item,
                        ) {
                            Some((registry, map))
                        } else {
                            None
                        },
                        None => None,
                    },
                    _ => None,
                },
                _ => None,
            }
        }
    }

    /// The node covers these bytes.
    pub open spec fn holds(self, id: int, start: usize, end: usize) -> bool {
        self.nodes@[id].start <= start && end <= self.nodes@[id].end
    }

    /// The `k`th reference reads the map, or fills it inside the loop.
    pub open spec fn is_map_call(self, around: int, k: int) -> bool {
        let member = self.parent_of(self.references@[k].node as int);
        let call = self.parent_of(member);
        self.is_member(member) && self.is_kind(call, "CallExpression"@) && match self.operand_of(call) {
            Some(callee) => self.same_span(callee, member) && (self.label_of(member) == Some("get"@)
                || self.label_of(member) == Some("set"@) && self.holds(
                around,
                self.nodes@[call].start,
                self.nodes@[call].end,
            )),
            None => false,
        }
    }

    /// The map is only filled by this loop and only read elsewhere.
    pub open spec fn map_is_confined(self, around: int, map: Text) -> bool {
        match self.top_named(map) {
            Some(i) => self.map_uses_fit(around, i),
            None => false,
        }
    }

    pub open spec fn map_uses_fit(self, around: int, i: int) -> bool {
        forall|k: int| #[trigger]
            self.refers(k, i) ==> self.references@[k].type_only || self.is_map_call(around, k)
    }

    /// The registry is not mentioned outside this loop.
    pub open spec fn registry_is_confined(self, around: int, registry: Text) -> bool {
        match self.top_named(registry) {
            Some(i) => self.registry_uses_fit(around, i),
            None => false,
        }
    }

    pub open spec fn registry_uses_fit(self, around: int, i: int) -> bool {
        forall|k: int| #[trigger]
            self.refers(k, i) ==> self.references@[k].type_only || self.holds(
                around,
                self.references@[k].start,
                self.references@[k].end,
            )
    }

    /// The loop at node `id` indexes the registry, and nothing else touches the index.
    pub open spec fn indexes(self, source: Text, id: int, registry: Text) -> bool {
        match self.index_builder(source, id) {
            Some((list, map)) => list == registry && self.is_map_name(map) && self.map_is_confined(
                id,
                map,
            ) && self.registry_is_confined(id, registry),
            None => false,
        }
    }

    /// The registries that a loop of the module indexes.
    pub open spec fn indexed(self, source: Text) -> Set<Text> {
        Set::new(
            |registry: Text| exists|id: int| self.is_node(id) && #[trigger] self.indexes(source, id, registry),
        )
    }
}

impl ModuleSyntax {
    fn describe_entries(&self, source: &SourceText, shape: &RegistryShape) -> (r: KeyMap<
        String,
        RegistryEntryInfo,
    >)
        requires
            self.shape_fits(shape@),
        ensures
            entry_info_views(r@) == self.entries_by_key(
                source@,
                shape@.entries,
                shape@.entries.len() as int,
            ),
    {
        let ghost all = shape@.entries;
        let mut out: KeyMap<String, RegistryEntryInfo> = KeyMap::new();
        let mut i: usize = 0;
        assert(entry_info_views(out@) =~= self.entries_by_key(source@, all, 0));
        while i < shape.entries.len()
            invariant
                i <= shape.entries.len(),
                all == shape@.entries,
                self.shape_fits(shape@),
                entry_info_views(out@) == self.entries_by_key(source@, all, i as int),
            decreases shape.entries.len() - i,
        {
            let entry = &shape.entries[i];
            assert(all[i as int] == entry@);
            assert(self.is_node(all[i as int].node as int));
            let node = &self.nodes[entry.node];
            let dependency: Option<String> = match &entry.dependency {
                Some(name) => Some(name.clone()),
                None => None,
            };
            let info = RegistryEntryInfo {
                fingerprint: source.text(node.start, node.end),
                dependency,
                location: source.location(node.start),
            };
            let ghost before = entry_info_views(out@);
            let ghost m = info@;
            out.insert(entry.key.clone(), info);
            assert(entry_info_views(out@) =~= before.insert(all[i as int].key, m));
            i += 1;
        }
        out
    }

    fn key_order(shape: &RegistryShape) -> (r: Vec<String>)
        ensures
            texts(r@) == shape@.entries.map_values(|e: EntryModel| e.key),
    {
        let mut out: Vec<String> = Vec::new();
        let mut i: usize = 0;
        while i < shape.entries.len()
            invariant
                i <= shape.entries.len(),
                out.len() == i,
                forall|k: int| 0 <= k < i ==> (#[trigger] out@[k])@ == shape.entries@[k].key@,
            decreases shape.entries.len() - i,
        {
            out.push(shape.entries[i].key.clone());
            i += 1;
        }
        assert(texts(out@) =~= shape@.entries.map_values(|e: EntryModel| e.key));
        out
    }

    /// The registries of the module with the texts of their entries.
    pub(crate) fn describe_registries(
        &self,
        source: &SourceText,
        shapes: &KeyMap<String, RegistryShape>,
    ) -> (r: KeyMap<String, RegistryInfo>)
        requires
            shape_models(shapes@) == self.registry_models(),
            forall|n: Text| #[trigger]
                shapes@.dom().contains(n) ==> self.shape_fits(shapes@[n]@) && self.top_named(n) is Some,
        ensures
            registry_infos(r@) == self.all_registries(source@),
    {
        let count = shapes.len();
        let ghost keys = shapes.keys();
        let mut out: KeyMap<String, RegistryInfo> = KeyMap::new();
        let mut i: usize = 0;
        while i < count
            invariant
                i <= count,
                count == keys.len(),
                keys == shapes.keys(),
                shape_models(shapes@) == self.registry_models(),
                forall|n: Text| #[trigger]
                    shapes@.dom().contains(n) ==> self.shape_fits(shapes@[n]@) && self.top_named(n) is Some,
                out@.dom() == keys.take(i as int).to_set(),
                forall|n: Text| #[trigger]
                    out@.dom().contains(n) ==> out@[n]@ == self.registry_info(source@, n),
            decreases count - i,
        {
            let name = shapes.key_at(i);
            let shape = shapes.value_at(i);
            assert(self.registry_models()[name@] == shape@);
            let info = RegistryInfo {
                full_fingerprint: self.whole_text(source, name.as_str()),
                entry_order: Self::key_order(shape),
                entries: self.describe_entries(source, shape),
            };
            assert(info@ =~= self.registry_info(source@, name@));
            out.insert(name.clone(), info);
            proof {
                assert(keys.take(i + 1) =~= keys.take(i as int).push(keys[i as int]));
                crate::collections::push_to_set(keys.take(i as int), keys[i as int]);
            }
            i += 1;
        }
        proof {
            assert(keys.take(count as int) =~= keys);
            assert(registry_infos(out@) =~= self.all_registries(source@));
        }
        out
    }

    fn is_new_map(&self, id: usize) -> (r: bool)
        ensures
            r == self.makes_map(id as int),
    {
        if !self.kind_is(id, "VariableDeclarator") {
            return false;
        }
        match self.operand(id) {
            Some(value) => self.kind_is(value, "NewExpression") && match self.operand(value) {
                Some(callee) => self.kind_is(callee, "IdentifierReference") && self.label_is(
                    callee,
                    "Map",
                ),
                None => false,
            },
            None => false,
        }
    }

    fn list_maps(&self) -> (r: KeySet<String>)
        ensures
            forall|name: Text| #[trigger] r@.contains(name) == self.is_map_name(name),
    {
        let mut out: KeySet<String> = KeySet::new();
        if self.find_top("Map").is_some() {
            return out;
        }
        let mut i: usize = 0;
        while i < self.nodes.len()
            invariant
                i <= self.nodes.len(),
                forall|name: Text| #[trigger]
                    out@.contains(name) == (exists|id: int|
                        0 <= id < i && #[trigger] self.makes_map(id) && self.label_of(id) == Some(name)),
            decreases self.nodes.len() - i,
        {
            let ghost before = out@;
            if self.is_new_map(i) {
                match self.label(i) {
                    Some(name) => {
                        out.insert(name);
                    },
                    None => {},
                }
            }
            proof {
                assert forall|name: Text| #[trigger]
                    out@.contains(name) == (exists|id: int|
                        0 <= id < i + 1 && #[trigger] self.makes_map(id) && self.label_of(id) == Some(
                            name,
                        )) by {
                    assert(before.contains(name) == (exists|id: int|
                        0 <= id < i && #[trigger] self.makes_map(id) && self.label_of(id) == Some(name)));
                    if self.makes_map(i as int) && self.label_of(i as int) == Some(name) {
                        assert(out@.contains(name));
                    }
                }
            }
            i += 1;
        }
        out
    }

    fn identifier_at(&self, id: usize) -> (r: Option<String>)
        ensures
            text_view(r) == self.identifier(id as int),
    {
        if self.kind_is(id, "IdentifierReference") {
            self.label(id)
        } else {
            None
        }
    }

    fn owner_of_property(&self, id: usize, property: &str) -> (r: Option<String>)
        ensures
            text_view(r) == self.property_owner(id as int, property@),
    {
        if self.kind_is(id, "StaticMemberExpression") && self.label_is(id, property) {
            match self.operand(id) {
                Some(object) => self.identifier_at(object),
                None => None,
            }
        } else {
            None
        }
    }

    fn list_arguments(&self, id: usize) -> (r: Vec<usize>)
        ensures
            r@ == self.arguments(id as int),
    {
        let list = self.list_below(id);
        let from: usize = if list.len() > 1 && self.kind_is(list[1], "TSTypeParameterInstantiation") {
            2
        } else if list.len() > 0 {
            1
        } else {
            0
        };
        let mut out: Vec<usize> = Vec::new();
        let mut i: usize = from;
        while i < list.len()
            invariant
                from <= i <= list.len(),
                out@ =~= list@.subrange(from as int, i as int),
            decreases list.len() - i,
        {
            out.push(list[i]);
            i += 1;
        }
        assert(out@ =~= self.arguments(id as int));
        out
    }

    fn is_awaited(&self, source: &SourceText, id: usize) -> (r: bool)
        requires
            id < self.nodes@.len(),
        ensures
            r == self.awaits(source@, id as int),
    {
        let mut k: usize = 0;
        let count = self.tokens.len();
        while k < count && count - k > 1
            invariant
                k <= count,
                count == self.tokens.len(),
                id < self.nodes@.len(),
                forall|j: int|
                    0 <= j < k ==> (#[trigger] self.tokens@[j]).0 != self.nodes@[id as int].start
                        || self.token_text(source@, j + 1) != "await"@,
            decreases count - k,
        {
            if self.tokens[k].0 == self.nodes[id].start {
                let next = source.text(self.tokens[k + 1].0, self.tokens[k + 1].1);
                if same(next.as_str(), "await") {
                    assert(self.token_text(source@, k + 1) == "await"@);
                    return true;
                }
            }
            k += 1;
        }
        false
    }

    fn variable_of_loop(&self, id: usize) -> (r: Option<String>)
        ensures
            text_view(r) == self.loop_variable(id as int),
    {
        let parts = self.list_below(id);
        if parts.len() == 0 || !self.kind_is(parts[0], "VariableDeclaration") {
            return None;
        }
        let declared = self.list_below(parts[0]);
        if declared.len() != 1 {
            return None;
        }
        self.label(declared[0])
    }

    fn call_of_loop(&self, id: usize) -> (r: Option<usize>)
        ensures
            match r {
                Some(call) => self.loop_call(id as int) == Some(call as int),
                None => self.loop_call(id as int) is None,
            },
    {
        let parts = self.list_below(id);
        if parts.len() == 0 {
            return None;
        }
        let last = parts[parts.len() - 1];
        if !self.kind_is(last, "BlockStatement") {
            return None;
        }
        let body = self.list_below(last);
        if body.len() != 1 || !self.kind_is(body[0], "ExpressionStatement") {
            return None;
        }
        match self.operand(body[0]) {
            Some(call) => if self.kind_is(call, "CallExpression") {
                Some(call)
            } else {
                None
            },
            None => None,
        }
    }

    fn builder_at(&self, source: &SourceText, id: usize) -> (r: Option<(String, String)>)
        ensures
            match r {
                Some(pair) => self.index_builder(source@, id as int) == Some((pair.0@, pair.1@)),
                None => self.index_builder(source@, id as int) is None,
            },
    {
        if !self.kind_is(id, "ForOfStatement") || self.is_awaited(source, id) {
            return None;
        }
        let list = self.operand(id);
        let item = self.variable_of_loop(id);
        let call = self.call_of_loop(id);
        match (list, item, call) {
            (Some(list), Some(item), Some(call)) => {
                let registry = self.identifier_at(list);
                match (registry, self.operand(call)) {
                    (Some(registry), Some(callee)) => match self.owner_of_property(callee, "set") {
                        Some(map) => {
                            let arguments = self.list_arguments(call);
                            if arguments.len() != 2 {
                                return None;
                            }
                            let by_name = match self.owner_of_property(arguments[0], "name") {
                                Some(name) => name == item,
                                None => false,
                            };
                            let whole = match self.identifier_at(arguments[1]) {
                                Some(name) => name == item,
                                None => false,
                            };
                            if by_name && whole {
                                Some((registry, map))
                            } else {
                                None
                            }
                        },
                        None => None,
                    },
                    _ => None,
                }
            },
            _ => None,
        }
    }

    fn map_call(&self, around: usize, k: usize) -> (r: bool)
        requires
            around < self.nodes@.len(),
            k < self.references@.len(),
        ensures
            r == self.is_map_call(around as int, k as int),
    {
        let id = self.references[k].node;
        if id >= self.nodes.len() {
            assert(self.parent_of(id as int) == -1);
            return false;
        }
        let member = self.nodes[id].parent;
        if !self.member_is(member) {
            return false;
        }
        let call = self.nodes[member].parent;
        if !self.kind_is(call, "CallExpression") {
            return false;
        }
        match self.operand(call) {
            Some(callee) => callee < self.nodes.len() && self.nodes[callee].start
                == self.nodes[member].start && self.nodes[callee].end == self.nodes[member].end && (
            self.label_is(member, "get") || (self.label_is(member, "set") && self.nodes[around].start
                <= self.nodes[call].start && self.nodes[call].end <= self.nodes[around].end)),
            None => false,
        }
    }

    fn confines_map(&self, around: usize, i: usize) -> (r: bool)
        requires
            around < self.nodes@.len(),
        ensures
            r == self.map_uses_fit(around as int, i as int),
    {
        let mut k: usize = 0;
        while k < self.references.len()
            invariant
                k <= self.references.len(),
                around < self.nodes@.len(),
                forall|j: int|
                    0 <= j < k && #[trigger] self.refers(j, i as int) ==> self.references@[j].type_only
                        || self.is_map_call(around as int, j),
            decreases self.references.len() - k,
        {
            if self.references[k].symbol == i && !self.references[k].type_only && !self.map_call(
                around,
                k,
            ) {
                assert(self.refers(k as int, i as int));
                return false;
            }
            k += 1;
        }
        true
    }

    fn confines_registry(&self, around: usize, i: usize) -> (r: bool)
        requires
            around < self.nodes@.len(),
        ensures
            r == self.registry_uses_fit(around as int, i as int),
    {
        let mut k: usize = 0;
        while k < self.references.len()
            invariant
                k <= self.references.len(),
                around < self.nodes@.len(),
                forall|j: int|
                    0 <= j < k && #[trigger] self.refers(j, i as int) ==> self.references@[j].type_only
                        || self.holds(
                        around as int,
                        self.references@[j].start,
                        self.references@[j].end,
                    ),
            decreases self.references.len() - k,
        {
            let r = &self.references[k];
            if r.symbol == i && !r.type_only && !(self.nodes[around].start <= r.start && r.end
                <= self.nodes[around].end) {
                assert(self.refers(k as int, i as int));
                return false;
            }
            k += 1;
        }
        true
    }

    fn is_confined(&self, around: usize, registry: &str, map: &str) -> (r: bool)
        requires
            around < self.nodes@.len(),
        ensures
            r == (self.map_is_confined(around as int, map@) && self.registry_is_confined(
                around as int,
                registry@,
            )),
    {
        match (self.find_top(map), self.find_top(registry)) {
            (Some(m), Some(g)) => self.confines_map(around, m) && self.confines_registry(around, g),
            _ => false,
        }
    }

    /// The registries that a loop of the module indexes.
    pub(crate) fn list_indexed(&self, source: &SourceText) -> (r: KeySet<String>)
        ensures
            r@ == self.indexed(source@),
    {
        let maps = self.list_maps();
        let mut out: KeySet<String> = KeySet::new();
        let mut i: usize = 0;
        while i < self.nodes.len()
            invariant
                i <= self.nodes.len(),
                forall|name: Text| #[trigger] maps@.contains(name) == self.is_map_name(name),
                forall|name: Text| #[trigger]
                    out@.contains(name) == (exists|id: int|
                        0 <= id < i && #[trigger] self.indexes(source@, id, name)),
            decreases self.nodes.len() - i,
        {
            let ghost before = out@;
            match self.builder_at(source, i) {
                Some((registry, map)) => {
                    if maps.contains(&map) && self.is_confined(i, registry.as_str(), map.as_str()) {
                        assert(self.indexes(source@, i as int, registry@));
                        out.insert(registry);
                    }
                },
                None => {},
            }
            proof {
                assert forall|name: Text| #[trigger]
                    out@.contains(name) == (exists|id: int|
                        0 <= id < i + 1 && #[trigger] self.indexes(source@, id, name)) by {
                    assert(before.contains(name) == (exists|id: int|
                        0 <= id < i && #[trigger] self.indexes(source@, id, name)));
                    if self.indexes(source@, i as int, name) {
                        assert(out@.contains(name));
                    }
                }
            }
            i += 1;
        }
        assert(out@ =~= self.indexed(source@));
        out
    }
}

} // verus!
