//! Which symbols of a module use which others.
use vstd::prelude::*;

use crate::collections::{
    first_from, first_from_fits, first_from_next, last_before, last_before_fits, pairs, KeyMap, KeySet,
};
use crate::order::Key;
use crate::parser::model::{set_views, SymbolModel, Text};
use crate::parser::source::{location_at, text_at, SourceText};
use crate::parser::syntax::ModuleSyntax;
use crate::parser::tree::{EntryModel, RegistryShape};
use crate::parser::{SourceLocation, SymbolInfo};
use crate::text::{join3, same};

verus! {

impl ModuleSyntax {
    /// The last symbol of the module with this name.
    pub open spec fn last_named(self, name: Text) -> Option<int> {
        last_before(self.is_top_named(name), self.symbols@.len() as int)
    }

    /// The declaration of symbol `c` covers these bytes.
    pub open spec fn declares_over(self, c: int, start: usize, end: usize) -> bool {
        self.symbols@[c].start <= start && end <= self.symbols@[c].end
    }

    /// Symbol `c` of the module has this name; where `runtime` is asked, it exists at run time.
    pub open spec fn is_owner(self, c: int, name: Text, runtime: bool) -> bool {
        self.is_top(c) && self.symbols@[c].name@ == name && (runtime ==> self.is_runtime(c))
    }

    /// Some declaration of `name` covers these bytes.
    pub open spec fn is_inside(self, name: Text, runtime: bool, start: usize, end: usize) -> bool {
        exists|c: int| #[trigger]
            self.is_owner(c, name, runtime) && self.declares_over(c, start, end)
    }

    /// The `k`th reference stands in the declaration of `name` and is to another symbol of the
    /// module, as a type or as a value.
    pub open spec fn is_use(self, name: Text, typed: bool, k: int) -> bool {
        let r = self.references@[k];
        &&& 0 <= k < self.references@.len()
        &&& r.type_only == typed
        &&& self.is_top(r.symbol as int)
        &&& !typed ==> self.is_runtime(r.symbol as int)
        &&& self.symbols@[r.symbol as int].name@ != name
        &&& self.is_inside(name, !typed, r.start, r.end)
    }

    /// The name that the `k`th reference is to.
    pub open spec fn used_name(self, k: int) -> Text {
        self.symbols@[self.references@[k].symbol as int].name@
    }

    pub open spec fn uses_of(self, name: Text, typed: bool, used: Text) -> spec_fn(int) -> bool {
        |k: int| self.is_use(name, typed, k) && self.used_name(k) == used
    }

    /// The first of the first `n` references by which `name` uses `used`.
    pub open spec fn first_use(self, name: Text, typed: bool, used: Text, n: int) -> Option<int> {
        first_from(self.uses_of(name, typed, used), 0, n)
    }

    /// What `name` uses by the first `n` references, but for `skip`.
    pub open spec fn used_among(self, name: Text, typed: bool, skip: Set<Text>, n: int) -> Set<
        Text,
    > {
        Set::new(|d: Text| !skip.contains(d) && self.first_use(name, typed, d, n) is Some)
    }

    /// Where `name` first uses each of the symbols it uses.
    pub open spec fn use_places(
        self,
        source: Text,
        name: Text,
        typed: bool,
        skip: Set<Text>,
        n: int,
    ) -> Map<Text, SourceLocation> {
        Map::new(
            |d: Text| self.used_among(name, typed, skip, n).contains(d),
            |d: Text|
                location_at(
                    source,
                    self.references@[self.first_use(name, typed, d, n)->0].start as int,
                ),
        )
    }

    /// The property that is read of what node `id` refers to, where it is only read.
    pub open spec fn literal_key(self, id: int) -> Option<Text> {
        let member = self.parent_of(id);
        let parent = self.parent_of(member);
        match self.operand_of(member) {
            Some(object) => if self.is_member(member) && self.same_span(object, id)
                && !self.nodes@[member].marks.0 && !self.is_kind(parent, "CallExpression"@)
                && !self.is_kind(parent, "NewExpression"@) && !self.is_kind(
                parent,
                "TaggedTemplateExpression"@,
            ) && !self.is_kind(parent, "UnaryExpression"@) {
                self.label_of(member)
            } else {
                None
            },
            None => None,
        }
    }

    pub open spec fn key_of(self, k: int) -> Option<Text> {
        self.literal_key(self.references@[k].node as int)
    }

    /// One of the first `n` references by which `name` uses `used` reads no fixed property.
    pub open spec fn is_loose(self, name: Text, used: Text, n: int) -> bool {
        exists|k: int|
            0 <= k < n && #[trigger] self.is_use(name, false, k) && self.used_name(k) == used
                && self.key_of(k) is None
    }

    /// One of the first `n` references by which `name` uses `used` reads the property `key`.
    pub open spec fn reads_key(self, name: Text, used: Text, key: Text, n: int) -> bool {
        exists|k: int|
            0 <= k < n && #[trigger] self.is_use(name, false, k) && self.used_name(k) == used
                && self.key_of(k) == Some(key)
    }

    /// The symbols of which `name` only reads fixed properties, with these properties.
    pub open spec fn keyed_uses(self, name: Text, skip: Set<Text>) -> Map<Text, Set<Text>> {
        let n = self.references@.len() as int;
        Map::new(
            |d: Text| self.used_among(name, false, skip, n).contains(d) && !self.is_loose(name, d, n),
            |d: Text| Set::new(|key: Text| self.reads_key(name, d, key, n)),
        )
    }

    /// The symbols that entries of the registry `name` hold.
    pub open spec fn entry_dependencies(self, name: Text) -> Set<Text> {
        if self.registry_models().dom().contains(name) {
            held(self.registry_models()[name].entries)
        } else {
            Set::empty()
        }
    }

    /// The text that a symbol was declared by.
    pub open spec fn declaration_text(self, source: Text, name: Text) -> Text {
        let s = self.symbols@[self.last_named(name)->0];
        text_at(source, s.start as int, s.end as int)
    }

    /// The text that a symbol was declared by, without the entries where it is a registry.
    pub open spec fn fingerprint_of(self, source: Text, name: Text) -> Text {
        if self.registry_models().dom().contains(name) {
            let shape = self.registry_models()[name];
            let whole = self.symbols@[shape.symbol as int];
            let list = self.nodes@[shape.collection as int];
            text_at(source, whole.start as int, list.start as int) + "<registry entries>"@ + text_at(
                source,
                list.end as int,
                whole.end as int,
            )
        } else {
            self.declaration_text(source, name)
        }
    }

    /// What is known of the symbol `name` of the module.
    pub open spec fn symbol_model(self, source: Text, name: Text) -> SymbolModel {
        let n = self.references@.len() as int;
        let skip = self.entry_dependencies(name);
        SymbolModel {
            fingerprint: self.fingerprint_of(source, name),
            dependencies: self.used_among(name, false, skip, n),
            dependency_locations: self.use_places(source, name, false, skip, n),
            keyed_dependencies: self.keyed_uses(name, skip),
            type_dependencies: self.used_among(name, true, Set::empty(), n),
            type_dependency_locations: self.use_places(source, name, true, Set::empty(), n),
            runtime: self.is_runtime(self.last_named(name)->0),
        }
    }
}

/// The symbols that the entries of a registry hold.
pub open spec fn held(entries: Seq<EntryModel>) -> Set<Text> {
    Set::new(
        |d: Text|
            exists|i: int| 0 <= i < entries.len() && (#[trigger] entries[i]).dependency == Some(d),
    )
}

impl ModuleSyntax {
    /// The last symbol of the module named `name`.
    fn find_last(&self, name: &str) -> (r: Option<usize>)
        ensures
            match r {
                Some(i) => self.last_named(name@) == Some(i as int) && self.is_top(i as int),
                None => self.last_named(name@) is None,
            },
    {
        let ghost p = self.is_top_named(name@);
        let mut i: usize = self.symbols.len();
        while i > 0
            invariant
                i <= self.symbols.len(),
                p == self.is_top_named(name@),
                last_before(p, i as int) == self.last_named(name@),
            decreases i,
        {
            i -= 1;
            if self.top_is(i) && same(self.symbols[i].name.as_str(), name) {
                assert(p(i as int));
                return Some(i);
            }
            assert(!p(i as int));
        }
        None
    }

    /// The symbols of the module named `name`.
    pub(crate) fn owners(&self, name: &str, runtime: bool) -> (r: Vec<usize>)
        ensures
            forall|c: usize| #[trigger] r@.contains(c) == self.is_owner(c as int, name@, runtime),
    {
        let mut out: Vec<usize> = Vec::new();
        let mut i: usize = 0;
        while i < self.symbols.len()
            invariant
                i <= self.symbols.len(),
                forall|c: usize| #[trigger]
                    out@.contains(c) == (c < i && self.is_owner(c as int, name@, runtime)),
            decreases self.symbols.len() - i,
        {
            let s = &self.symbols[i];
            let ghost before = out@;
            if s.scope == self.root_scope && same(s.name.as_str(), name) && (!runtime || (s.is_value
                && !s.is_type_import)) {
                out.push(i);
                assert(forall|c: usize| #[trigger]
                    out@.contains(c) == (before.contains(c) || c == i)) by {
                    assert forall|c: usize| #[trigger]
                        out@.contains(c) == (before.contains(c) || c == i) by {
                        if before.contains(c) {
                            let j = choose|j: int| 0 <= j < before.len() && before[j] == c;
                            assert(out@[j] == c);
                        }
                        assert(out@[before.len() as int] == i);
                        if out@.contains(c) && c != i {
                            let j = choose|j: int| 0 <= j < out@.len() && out@[j] == c;
                            assert(before[j] == c);
                        }
                    }
                }
            }
            i += 1;
        }
        out
    }

    fn covered(
        &self,
        owners: &Vec<usize>,
        name: &str,
        runtime: bool,
        start: usize,
        end: usize,
    ) -> (r: bool)
        requires
            forall|c: usize| #[trigger] owners@.contains(c) == self.is_owner(c as int, name@, runtime),
        ensures
            r == self.is_inside(name@, runtime, start, end),
    {
        let n = self.symbols.len();
        let mut i: usize = 0;
        while i < owners.len()
            invariant
                i <= owners.len(),
                forall|c: usize| #[trigger]
                    owners@.contains(c) == self.is_owner(c as int, name@, runtime),
                forall|j: int|
                    0 <= j < i ==> !self.declares_over(#[trigger] owners@[j] as int, start, end),
            decreases owners.len() - i,
        {
            let c = owners[i];
            assert(owners@.contains(c));
            if self.symbols[c].start <= start && end <= self.symbols[c].end {
                assert(self.is_owner(c as int, name@, runtime));
                return true;
            }
            i += 1;
        }
        proof {
            assert forall|c: int| #[trigger] self.is_owner(c, name@, runtime) implies !self.declares_over(
                c,
                start,
                end,
            ) by {
                assert(0 <= c < n);
                assert(owners@.contains(c as usize));
                let j = choose|j: int| 0 <= j < owners@.len() && owners@[j] == c as usize;
            }
        }
        false
    }

    fn use_at(&self, owners: &Vec<usize>, name: &str, typed: bool, k: usize) -> (r: bool)
        requires
            k < self.references@.len(),
            forall|c: usize| #[trigger] owners@.contains(c) == self.is_owner(c as int, name@, !typed),
        ensures
            r == self.is_use(name@, typed, k as int),
            r ==> self.references@[k as int].symbol < self.symbols@.len(),
    {
        let r = &self.references[k];
        if r.type_only != typed || !self.top_is(r.symbol) {
            return false;
        }
        let s = &self.symbols[r.symbol];
        if !typed && !(s.is_value && !s.is_type_import) {
            return false;
        }
        if same(s.name.as_str(), name) {
            return false;
        }
        self.covered(owners, name, !typed, r.start, r.end)
    }

    fn list_used(&self, owners: &Vec<usize>, name: &str, typed: bool, skip: &KeySet<String>) -> (r:
        KeySet<String>)
        requires
            forall|c: usize| #[trigger] owners@.contains(c) == self.is_owner(c as int, name@, !typed),
        ensures
            r@ == self.used_among(name@, typed, skip@, self.references@.len() as int),
    {
        let mut out: KeySet<String> = KeySet::new();
        let mut k: usize = 0;
        assert(out@ =~= self.used_among(name@, typed, skip@, 0));
        while k < self.references.len()
            invariant
                k <= self.references.len(),
                forall|c: usize| #[trigger]
                    owners@.contains(c) == self.is_owner(c as int, name@, !typed),
                out@ == self.used_among(name@, typed, skip@, k as int),
            decreases self.references.len() - k,
        {
            let ghost before = out@;
            if self.use_at(owners, name, typed, k) {
                let used = &self.symbols[self.references[k].symbol].name;
                if !skip.contains(used) {
                    out.insert(used.clone());
                }
            }
            proof {
                assert forall|d: Text| out@.contains(d) == self.used_among(
                    name@,
                    typed,
                    skip@,
                    k + 1,
                ).contains(d) by {
                    first_from_next(self.uses_of(name@, typed, d), 0, k as int);
                    assert(before.contains(d) == self.used_among(name@, typed, skip@, k as int).contains(d));
                }
                assert(out@ =~= self.used_among(name@, typed, skip@, k + 1));
            }
            k += 1;
        }
        out
    }

    fn list_places(
        &self,
        source: &SourceText,
        owners: &Vec<usize>,
        name: &str,
        typed: bool,
        skip: &KeySet<String>,
    ) -> (r: KeyMap<String, SourceLocation>)
        requires
            forall|c: usize| #[trigger] owners@.contains(c) == self.is_owner(c as int, name@, !typed),
        ensures
            r@ == self.use_places(source@, name@, typed, skip@, self.references@.len() as int),
    {
        let mut out: KeyMap<String, SourceLocation> = KeyMap::new();
        let mut k: usize = 0;
        assert(out@ =~= self.use_places(source@, name@, typed, skip@, 0));
        while k < self.references.len()
            invariant
                k <= self.references.len(),
                forall|c: usize| #[trigger]
                    owners@.contains(c) == self.is_owner(c as int, name@, !typed),
                out@ == self.use_places(source@, name@, typed, skip@, k as int),
            decreases self.references.len() - k,
        {
            let ghost before = self.use_places(source@, name@, typed, skip@, k as int);
            if self.use_at(owners, name, typed, k) {
                let used = &self.symbols[self.references[k].symbol].name;
                if !skip.contains(used) && !out.contains_key(used) {
                    out.insert(used.clone(), source.location(self.references[k].start));
                }
            }
            proof {
                let after = self.use_places(source@, name@, typed, skip@, k + 1);
                assert forall|d: Text|
                    #![trigger after.dom().contains(d)]
                    out@.dom().contains(d) == after.dom().contains(d) && (after.dom().contains(d)
                        ==> out@[d] == after[d]) by {
                    first_from_next(self.uses_of(name@, typed, d), 0, k as int);
                    assert(before.dom().contains(d) == self.used_among(
                        name@,
                        typed,
                        skip@,
                        k as int,
                    ).contains(d));
                }
                assert(out@.dom() =~= after.dom());
                assert(out@ =~= after);
            }
            k += 1;
        }
        out
    }

    pub(crate) fn read_key(&self, id: usize) -> (r: Option<String>)
        ensures
            crate::parser::syntax::text_view(r) == self.literal_key(id as int),
    {
        if id >= self.nodes.len() {
            assert(self.parent_of(id as int) == -1);
            assert(self.operand_of(-1) is None);
            return None;
        }
        let member = self.nodes[id].parent;
        match self.operand(member) {
            Some(object) => {
                if !self.member_is(member) || object >= self.nodes.len() || self.nodes[object].start
                    != self.nodes[id].start || self.nodes[object].end != self.nodes[id].end
                    || self.nodes[member].marks.0 {
                    return None;
                }
                let parent = self.nodes[member].parent;
                if self.kind_is(parent, "CallExpression") || self.kind_is(parent, "NewExpression")
                    || self.kind_is(parent, "TaggedTemplateExpression") || self.kind_is(
                    parent,
                    "UnaryExpression",
                ) {
                    return None;
                }
                self.label(member)
            },
            None => None,
        }
    }

    fn list_loose(&self, owners: &Vec<usize>, name: &str) -> (r: KeySet<String>)
        requires
            forall|c: usize| #[trigger] owners@.contains(c) == self.is_owner(c as int, name@, true),
        ensures
            forall|d: Text| #[trigger]
                r@.contains(d) == self.is_loose(name@, d, self.references@.len() as int),
    {
        let mut out: KeySet<String> = KeySet::new();
        let mut k: usize = 0;
        while k < self.references.len()
            invariant
                k <= self.references.len(),
                forall|c: usize| #[trigger]
                    owners@.contains(c) == self.is_owner(c as int, name@, true),
                forall|d: Text| #[trigger] out@.contains(d) == self.is_loose(name@, d, k as int),
            decreases self.references.len() - k,
        {
            let ghost before = out@;
            let uses = self.use_at(owners, name, false, k);
            let mut loose: bool = false;
            if uses {
                loose = self.read_key(self.references[k].node).is_none();
                if loose {
                    out.insert(self.symbols[self.references[k].symbol].name.clone());
                }
            }
            proof {
                assert forall|d: Text| #[trigger] out@.contains(d) == self.is_loose(name@, d, k + 1) by {
                    assert(before.contains(d) == self.is_loose(name@, d, k as int));
                    if self.is_loose(name@, d, k as int) {
                        let j = choose|j: int|
                            0 <= j < k && #[trigger] self.is_use(name@, false, j) && self.used_name(j)
                                == d && self.key_of(j) is None;
                        assert(self.is_use(name@, false, j));
                    }
                    if loose && d == self.used_name(k as int) {
                        assert(self.is_use(name@, false, k as int));
                    }
                }
            }
            k += 1;
        }
        out
    }

    fn list_keyed(&self, owners: &Vec<usize>, name: &str, skip: &KeySet<String>) -> (r: KeyMap<
        String,
        KeySet<String>,
    >)
        requires
            forall|c: usize| #[trigger] owners@.contains(c) == self.is_owner(c as int, name@, true),
        ensures
            set_views(r@) == self.keyed_uses(name@, skip@),
    {
        let loose = self.list_loose(owners, name);
        let ghost total = self.references@.len() as int;
        let ghost wanted = |d: Text| !skip@.contains(d) && !self.is_loose(name@, d, total);
        let mut out: KeyMap<String, KeySet<String>> = KeyMap::new();
        let mut k: usize = 0;
        while k < self.references.len()
            invariant
                k <= self.references.len(),
                total == self.references@.len(),
                wanted == (|d: Text| !skip@.contains(d) && !self.is_loose(name@, d, total)),
                forall|c: usize| #[trigger]
                    owners@.contains(c) == self.is_owner(c as int, name@, true),
                forall|d: Text| #[trigger] loose@.contains(d) == self.is_loose(name@, d, total),
                forall|d: Text| #[trigger]
                    out@.dom().contains(d) == (wanted(d) && self.first_use(name@, false, d, k as int)
                        is Some),
                forall|d: Text, key: Text| #[trigger]
                    pairs::<String, String>(out@).contains((d, key)) == (wanted(d)
                        && self.reads_key(name@, d, key, k as int)),
            decreases self.references.len() - k,
        {
            let ghost before = out@;
            let mut linked: bool = false;
            if self.use_at(owners, name, false, k) {
                let used = &self.symbols[self.references[k].symbol].name;
                if !skip.contains(used) && !loose.contains(used) {
                    match self.read_key(self.references[k].node) {
                        Some(key) => {
                            out.link(used.clone(), key);
                            linked = true;
                        },
                        None => {
                            proof {
                                assert(self.is_use(name@, false, k as int));
                                assert(self.is_loose(name@, used@, total));
                            }
                        },
                    }
                }
            }
            proof {
                let now = self.used_name(k as int);
                assert(self.is_use(name@, false, k as int) && wanted(now) ==> linked);
                assert forall|d: Text| #[trigger]
                    out@.dom().contains(d) == (wanted(d) && self.first_use(name@, false, d, k + 1)
                        is Some) by {
                    first_from_next(self.uses_of(name@, false, d), 0, k as int);
                    assert(before.dom().contains(d) == (wanted(d) && self.first_use(
                        name@,
                        false,
                        d,
                        k as int,
                    ) is Some));
                }
                assert forall|d: Text, key: Text| #[trigger]
                    pairs::<String, String>(out@).contains((d, key)) == (wanted(d)
                        && self.reads_key(name@, d, key, k + 1)) by {
                    assert(pairs::<String, String>(before).contains((d, key)) == (wanted(d)
                        && self.reads_key(name@, d, key, k as int)));
                    if self.reads_key(name@, d, key, k as int) {
                        let j = choose|j: int|
                            0 <= j < k && #[trigger] self.is_use(name@, false, j) && self.used_name(j)
                                == d && self.key_of(j) == Some(key);
                        assert(self.is_use(name@, false, j));
                    }
                    if linked && d == now && self.key_of(k as int) == Some(key) {
                        assert(self.is_use(name@, false, k as int));
                    }
                }
            }
            k += 1;
        }
        proof {
            let all = self.keyed_uses(name@, skip@);
            assert forall|d: Text| #[trigger]
                set_views(out@).dom().contains(d) == all.dom().contains(d) by {
                assert(out@.dom().contains(d) == (wanted(d) && self.first_use(name@, false, d, total)
                    is Some));
            }
            assert forall|d: Text| #[trigger] all.dom().contains(d) implies set_views(out@)[d]
                == all[d] by {
                assert(set_views(out@).dom().contains(d));
                assert forall|key: Text| set_views(out@)[d].contains(key) == all[d].contains(key) by {
                    assert(pairs::<String, String>(out@).contains((d, key)) == (wanted(d)
                        && self.reads_key(name@, d, key, total)));
                }
                assert(set_views(out@)[d] =~= all[d]);
            }
            assert(set_views(out@) =~= all);
        }
        out
    }

    fn list_held(shape: &RegistryShape) -> (r: KeySet<String>)
        ensures
            r@ == held(shape@.entries),
    {
        let mut out: KeySet<String> = KeySet::new();
        let ghost all = shape@.entries;
        let mut i: usize = 0;
        while i < shape.entries.len()
            invariant
                i <= shape.entries.len(),
                all == shape@.entries,
                forall|d: Text| #[trigger]
                    out@.contains(d) == (exists|j: int|
                        0 <= j < i && (#[trigger] all[j]).dependency == Some(d)),
            decreases shape.entries.len() - i,
        {
            let ghost before = out@;
            assert(all[i as int] == shape.entries@[i as int]@);
            match &shape.entries[i].dependency {
                Some(name) => {
                    out.insert(name.clone());
                },
                None => {},
            }
            proof {
                assert forall|d: Text| #[trigger]
                    out@.contains(d) == (exists|j: int|
                        0 <= j < i + 1 && (#[trigger] all[j]).dependency == Some(d)) by {
                    assert(before.contains(d) == (exists|j: int|
                        0 <= j < i && (#[trigger] all[j]).dependency == Some(d)));
                    if all[i as int].dependency == Some(d) {
                        assert(out@.contains(d));
                    }
                }
            }
            i += 1;
        }
        assert(out@ =~= held(all));
        out
    }

    /// The text that the symbol `name` was declared by.
    pub(crate) fn whole_text(&self, source: &SourceText, name: &str) -> (r: String)
        requires
            self.top_named(name@) is Some,
        ensures
            r@ == self.declaration_text(source@, name@),
    {
        let last = self.find_last(name);
        proof {
            let p = self.is_top_named(name@);
            first_from_fits(p, 0, self.symbols@.len() as int);
            last_before_fits(p, self.symbols@.len() as int);
        }
        let i = last.unwrap();
        source.text(self.symbols[i].start, self.symbols[i].end)
    }

    /// What is known of the symbol `name`.
    pub(crate) fn describe_symbol(
        &self,
        source: &SourceText,
        registries: &KeyMap<String, RegistryShape>,
        name: &String,
    ) -> (r: SymbolInfo)
        requires
            crate::parser::tree::shape_models(registries@) == self.registry_models(),
            self.top_named(name@) is Some,
            forall|n: Text| #[trigger]
                registries@.dom().contains(n) ==> self.shape_fits(registries@[n]@),
        ensures
            r@ == self.symbol_model(source@, name@),
    {
        let whole = self.whole_text(source, name.as_str());
        proof {
            let p = self.is_top_named(name@);
            first_from_fits(p, 0, self.symbols@.len() as int);
            last_before_fits(p, self.symbols@.len() as int);
        }
        let last = self.find_last(name.as_str()).unwrap();
        let none: KeySet<String> = KeySet::new();
        let fingerprint: String;
        let skip: KeySet<String>;
        match registries.get(name) {
            Some(shape) => {
                assert(self.registry_models()[name@] == shape@);
                let declared = &self.symbols[shape.symbol];
                let list = &self.nodes[shape.collection];
                let front = source.text(declared.start, list.start);
                let back = source.text(list.end, declared.end);
                fingerprint = join3(front.as_str(), "<registry entries>", back.as_str());
                skip = Self::list_held(shape);
            },
            None => {
                fingerprint = whole;
                skip = KeySet::new();
            },
        }
        assert(skip@ == self.entry_dependencies(name@));
        let values = self.owners(name.as_str(), true);
        let types = self.owners(name.as_str(), false);
        SymbolInfo {
            fingerprint,
            dependencies: self.list_used(&values, name.as_str(), false, &skip),
            dependency_locations: self.list_places(source, &values, name.as_str(), false, &skip),
            keyed_dependencies: self.list_keyed(&values, name.as_str(), &skip),
            type_dependencies: self.list_used(&types, name.as_str(), true, &none),
            type_dependency_locations: self.list_places(source, &types, name.as_str(), true, &none),
            runtime: self.symbols[last].is_value && !self.symbols[last].is_type_import,
        }
    }
}

} // verus!
