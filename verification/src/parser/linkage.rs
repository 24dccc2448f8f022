//! What a module imports, exports and asks for.
use vstd::prelude::*;

use crate::collections::{KeyMap, KeySet};
use crate::order::Key;
use crate::parser::model::{
    binding_views, re_export_models, text_values, texts, BindingModel, ImportedModel, ReExportModel,
    Text,
};
use crate::parser::source::{location_at, SourceText};
use crate::parser::syntax::{
    import_views, local_export_views, re_export_views, request_views, star_views, taken_view,
    text_view, ModuleSyntax,
};
use crate::parser::{ImportBinding, ImportedName, ReExport};

verus! {

impl ModuleSyntax {
    /// Symbol `i` is mentioned, only as a type or also otherwise.
    pub open spec fn is_mentioned(self, i: int, typed: bool) -> bool {
        exists|k: int| #[trigger] self.refers(k, i) && self.references@[k].type_only == typed
    }

    /// Some symbol of the module with this name is mentioned.
    pub open spec fn is_referenced(self, name: Text, typed: bool) -> bool {
        exists|i: int| #[trigger]
            self.is_owner(i, name, false) && self.is_mentioned(i, typed)
    }

    /// The property that the `k`th reference reads of a namespace.
    pub open spec fn member_name(self, k: int) -> Option<Text> {
        let parent = self.parent_of(self.references@[k].node as int);
        if self.is_member(parent) || self.is_kind(parent, "JSXMemberExpression"@) {
            self.label_of(parent)
        } else {
            None
        }
    }

    /// Every mention of the symbol among the first `n` references reads a fixed property.
    pub open spec fn reads_members(self, i: int, n: int) -> bool {
        forall|k: int|
            0 <= k < n && #[trigger] self.refers(k, i) ==> self.references@[k].type_only
                || self.member_name(k) is Some
    }

    /// The properties that the first `n` references read of the symbol.
    pub open spec fn members_read(self, i: int, n: int) -> Set<Text> {
        Set::new(
            |name: Text|
                exists|k: int|
                    0 <= k < n && #[trigger] self.refers(k, i) && !self.references@[k].type_only
                        && self.member_name(k) == Some(name),
        )
    }

    /// The members that are read of a namespace, where nothing else is done with it.
    pub open spec fn namespace_members(self, local: Text) -> Option<Set<Text>> {
        let n = self.references@.len() as int;
        match self.top_named(local) {
            Some(i) => if self.reads_members(i, n) {
                Some(self.members_read(i, n))
            } else {
                None
            },
            None => None,
        }
    }

    /// What the `e`th import takes.
    pub open spec fn imported_at(self, e: int) -> ImportedModel {
        let entry = import_views(self.imports@)[e];
        match entry.2 {
            Some(Some(name)) => ImportedModel::Named(name),
            Some(None) => ImportedModel::Named("default"@),
            None => ImportedModel::Namespace(self.namespace_members(entry.1)),
        }
    }

    pub open spec fn binding_at(self, source: Text, e: int) -> BindingModel {
        let entry = import_views(self.imports@)[e];
        BindingModel {
            source: entry.0,
            imported: self.imported_at(e),
            location: location_at(source, entry.4.0 as int),
        }
    }

    /// The `e`th import binds a value, or a type.
    pub open spec fn binds(self, e: int, typed: bool) -> bool {
        let entry = import_views(self.imports@)[e];
        if typed {
            entry.3 || self.is_referenced(entry.1, true)
        } else {
            !entry.3
        }
    }

    /// What the first `n` imports bind.
    pub open spec fn bindings(self, source: Text, typed: bool, n: int) -> Map<Text, BindingModel>
        decreases n,
    {
        if n <= 0 {
            Map::empty()
        } else if self.binds(n - 1, typed) {
            self.bindings(source, typed, n - 1).insert(
                import_views(self.imports@)[n - 1].1,
                self.binding_at(source, n - 1),
            )
        } else {
            self.bindings(source, typed, n - 1)
        }
    }

    /// The local names that the first `n` exports export.
    pub open spec fn own_exports(self, typed: bool, n: int) -> Map<Text, Text>
        decreases n,
    {
        if n <= 0 {
            Map::empty()
        } else {
            let entry = local_export_views(self.local_exports@)[n - 1];
            match (export_name(entry.0), entry.1) {
                (Some(exported), Some(local)) => if typed || !entry.2 {
                    self.own_exports(typed, n - 1).insert(exported, local)
                } else {
                    self.own_exports(typed, n - 1)
                },
                _ => self.own_exports(typed, n - 1),
            }
        }
    }

    /// The exports that the first `n` entries take from other modules.
    pub open spec fn passed_on(self, typed: bool, n: int) -> Seq<ReExportModel>
        decreases n,
    {
        if n <= 0 {
            Seq::empty()
        } else {
            let entry = re_export_views(self.re_exports@)[n - 1];
            match (entry.0, export_name(entry.1), passed_name(entry.2)) {
                (Some(source), Some(exported), Some(imported)) => if typed || !entry.3 {
                    self.passed_on(typed, n - 1).push((ReExportModel { exported, source, imported }))
                } else {
                    self.passed_on(typed, n - 1)
                },
                _ => self.passed_on(typed, n - 1),
            }
        }
    }

    /// The modules that the first `n` entries pass on whole.
    pub open spec fn passed_whole(self, typed: bool, n: int) -> Seq<Text>
        decreases n,
    {
        if n <= 0 {
            Seq::empty()
        } else {
            let entry = star_views(self.stars@)[n - 1];
            match entry.0 {
                Some(source) => if typed || !entry.1 {
                    self.passed_whole(typed, n - 1).push(source)
                } else {
                    self.passed_whole(typed, n - 1)
                },
                None => self.passed_whole(typed, n - 1),
            }
        }
    }

    /// The `e`th import asks for the module at run time.
    pub open spec fn import_asks(self, e: int, name: Text) -> bool {
        let entry = import_views(self.imports@)[e];
        0 <= e < self.imports@.len() && entry.0 == name && !entry.3 && (self.is_referenced(
            entry.1,
            false,
        ) || !self.is_referenced(entry.1, true))
    }

    pub open spec fn re_export_asks(self, e: int, name: Text) -> bool {
        let entry = re_export_views(self.re_exports@)[e];
        0 <= e < self.re_exports@.len() && entry.0 == Some(name) && !entry.3
    }

    pub open spec fn star_asks(self, e: int, name: Text) -> bool {
        let entry = star_views(self.stars@)[e];
        0 <= e < self.stars@.len() && entry.0 == Some(name) && !entry.1
    }

    /// A statement that binds some import stands at these bytes.
    pub open spec fn binds_at(self, span: (usize, usize)) -> bool {
        exists|e: int| 0 <= e < self.imports@.len() && (#[trigger] self.imports@[e]).4 == span
    }

    /// The `e`th request imports a module for its effects alone.
    pub open spec fn effect_asks(self, e: int, name: Text) -> bool {
        let entry = request_views(self.requests@)[e];
        0 <= e < self.requests@.len() && entry.0 == name && entry.1.0 && !entry.1.1 && !self.binds_at(
            entry.2,
        )
    }

    /// The modules that this module asks for at run time.
    pub open spec fn requested(self) -> Set<Text> {
        Set::new(
            |name: Text|
                (exists|e: int| #[trigger] self.import_asks(e, name)) || (exists|e: int| #[trigger]
                    self.re_export_asks(e, name)) || (exists|e: int| #[trigger]
                    self.star_asks(e, name)) || (exists|e: int| #[trigger] self.effect_asks(e, name)),
        )
    }
}

/// The name that an export has outside.
pub open spec fn export_name(name: Option<Option<Text>>) -> Option<Text> {
    match name {
        Some(Some(text)) => Some(text),
        Some(None) => Some("default"@),
        None => None,
    }
}

/// What an export takes from another module.
pub open spec fn passed_name(taken: (bool, Option<Text>)) -> Option<ImportedModel> {
    match taken.1 {
        Some(name) => Some(ImportedModel::Named(name)),
        None => if taken.0 {
            Some(ImportedModel::Namespace(None))
        } else {
            None
        },
    }
}

fn exported_as(name: &Option<Option<String>>) -> (r: Option<String>)
    ensures
        text_view(r) == export_name(taken_view(*name)),
{
    match name {
        Some(Some(text)) => Some(text.clone()),
        Some(None) => Some("default".to_owned()),
        None => None,
    }
}

impl ModuleSyntax {
    fn mentions(&self, i: usize, typed: bool) -> (r: bool)
        ensures
            r == self.is_mentioned(i as int, typed),
    {
        let mut k: usize = 0;
        while k < self.references.len()
            invariant
                k <= self.references.len(),
                forall|j: int|
                    0 <= j < k && #[trigger] self.refers(j, i as int) ==> self.references@[j].type_only
                        != typed,
            decreases self.references.len() - k,
        {
            if self.references[k].symbol == i && self.references[k].type_only == typed {
                assert(self.refers(k as int, i as int));
                return true;
            }
            k += 1;
        }
        false
    }

    /// Whether some symbol named `name` is mentioned.
    pub(crate) fn references_name(&self, name: &str, typed: bool) -> (r: bool)
        ensures
            r == self.is_referenced(name@, typed),
    {
        let owners = self.owners(name, false);
        let n = self.symbols.len();
        let mut i: usize = 0;
        while i < owners.len()
            invariant
                i <= owners.len(),
                forall|c: usize| #[trigger]
                    owners@.contains(c) == self.is_owner(c as int, name@, false),
                forall|j: int|
                    0 <= j < i ==> !self.is_mentioned(#[trigger] owners@[j] as int, typed),
            decreases owners.len() - i,
        {
            let c = owners[i];
            assert(owners@.contains(c));
            if self.mentions(c, typed) {
                assert(self.is_owner(c as int, name@, false));
                return true;
            }
            i += 1;
        }
        proof {
            assert forall|c: int| #[trigger] self.is_owner(c, name@, false) implies !self.is_mentioned(
                c,
                typed,
            ) by {
                assert(0 <= c < n);
                assert(owners@.contains(c as usize));
                let j = choose|j: int| 0 <= j < owners@.len() && owners@[j] == c as usize;
            }
        }
        false
    }

    fn member_at(&self, k: usize) -> (r: Option<String>)
        requires
            k < self.references@.len(),
        ensures
            text_view(r) == self.member_name(k as int),
    {
        let id = self.references[k].node;
        if id >= self.nodes.len() {
            assert(self.parent_of(id as int) == -1);
            return None;
        }
        let parent = self.nodes[id].parent;
        if self.member_is(parent) || self.kind_is(parent, "JSXMemberExpression") {
            self.label(parent)
        } else {
            None
        }
    }

    fn members_of(&self, i: usize) -> (r: Option<KeySet<String>>)
        ensures
            match r {
                Some(members) => self.reads_members(i as int, self.references@.len() as int)
                    && members@ == self.members_read(i as int, self.references@.len() as int),
                None => !self.reads_members(i as int, self.references@.len() as int),
            },
    {
        let mut out: KeySet<String> = KeySet::new();
        let mut k: usize = 0;
        while k < self.references.len()
            invariant
                k <= self.references.len(),
                self.reads_members(i as int, k as int),
                forall|name: Text| #[trigger]
                    out@.contains(name) == self.members_read(i as int, k as int).contains(name),
            decreases self.references.len() - k,
        {
            let ghost before = out@;
            let read = self.references[k].symbol == i && !self.references[k].type_only;
            if read {
                match self.member_at(k) {
                    Some(name) => {
                        out.insert(name);
                    },
                    None => {
                        assert(self.refers(k as int, i as int));
                        return None;
                    },
                }
            }
            proof {
                assert forall|name: Text| #[trigger]
                    out@.contains(name) == self.members_read(i as int, k + 1).contains(name) by {
                    assert(before.contains(name) == self.members_read(i as int, k as int).contains(name));
                    if before.contains(name) {
                        let j = choose|j: int|
                            0 <= j < k && #[trigger] self.refers(j, i as int)
                                && !self.references@[j].type_only && self.member_name(j) == Some(name);
                        assert(self.refers(j, i as int));
                    }
                    if read && self.member_name(k as int) == Some(name) {
                        assert(self.refers(k as int, i as int));
                    }
                }
            }
            k += 1;
        }
        assert(out@ =~= self.members_read(i as int, self.references@.len() as int));
        Some(out)
    }

    fn read_imported(&self, e: usize) -> (r: ImportedName)
        requires
            e < self.imports@.len(),
        ensures
            r@ == self.imported_at(e as int),
    {
        let entry = &self.imports[e];
        assert(import_views(self.imports@)[e as int] == (
            entry.0@,
            entry.1@,
            taken_view(entry.2),
            entry.3,
            entry.4,
        ));
        match &entry.2 {
            Some(Some(name)) => ImportedName::Named(name.clone()),
            Some(None) => ImportedName::Named("default".to_owned()),
            None => {
                let members: Option<KeySet<String>> = match self.find_top(entry.1.as_str()) {
                    Some(i) => self.members_of(i),
                    None => None,
                };
                ImportedName::Namespace { members }
            },
        }
    }

    /// What the imports bind.
    pub(crate) fn list_bindings(&self, source: &SourceText, typed: bool) -> (r: KeyMap<
        String,
        ImportBinding,
    >)
        ensures
            binding_views(r@) == self.bindings(source@, typed, self.imports@.len() as int),
    {
        let mut out: KeyMap<String, ImportBinding> = KeyMap::new();
        let mut e: usize = 0;
        assert(binding_views(out@) =~= self.bindings(source@, typed, 0));
        while e < self.imports.len()
            invariant
                e <= self.imports.len(),
                binding_views(out@) == self.bindings(source@, typed, e as int),
            decreases self.imports.len() - e,
        {
            let entry = &self.imports[e];
            assert(import_views(self.imports@)[e as int] == (
                entry.0@,
                entry.1@,
                taken_view(entry.2),
                entry.3,
                entry.4,
            ));
            let binds = if typed {
                entry.3 || self.references_name(entry.1.as_str(), true)
            } else {
                !entry.3
            };
            if binds {
                let binding = ImportBinding {
                    source: entry.0.clone(),
                    imported: self.read_imported(e),
                    location: source.location(entry.4.0),
                };
                let ghost before = binding_views(out@);
                let ghost m = binding@;
                out.insert(entry.1.clone(), binding);
                assert(binding_views(out@) =~= before.insert(entry.1@, m));
                assert(m == self.binding_at(source@, e as int));
            }
            e += 1;
        }
        out
    }

    /// The exports that the module declares itself.
    pub(crate) fn list_own_exports(&self, typed: bool) -> (r: KeyMap<String, String>)
        ensures
            text_values(r@) == self.own_exports(typed, self.local_exports@.len() as int),
    {
        let mut out: KeyMap<String, String> = KeyMap::new();
        let mut e: usize = 0;
        assert(text_values(out@) =~= self.own_exports(typed, 0));
        while e < self.local_exports.len()
            invariant
                e <= self.local_exports.len(),
                text_values(out@) == self.own_exports(typed, e as int),
            decreases self.local_exports.len() - e,
        {
            let entry = &self.local_exports[e];
            assert(local_export_views(self.local_exports@)[e as int] == (
                taken_view(entry.0),
                text_view(entry.1),
                entry.2,
            ));
            match (exported_as(&entry.0), &entry.1) {
                (Some(exported), Some(local)) => if typed || !entry.2 {
                    let ghost before = text_values(out@);
                    let ghost x = exported@;
                    out.insert(exported, local.clone());
                    assert(text_values(out@) =~= before.insert(x, local@));
                },
                _ => {},
            }
            e += 1;
        }
        out
    }

    /// The exports that the module takes from others.
    pub(crate) fn list_passed_on(&self, typed: bool) -> (r: Vec<ReExport>)
        ensures
            re_export_models(r@) == self.passed_on(typed, self.re_exports@.len() as int),
    {
        let mut out: Vec<ReExport> = Vec::new();
        let mut e: usize = 0;
        assert(re_export_models(out@) =~= self.passed_on(typed, 0));
        while e < self.re_exports.len()
            invariant
                e <= self.re_exports.len(),
                re_export_models(out@) == self.passed_on(typed, e as int),
            decreases self.re_exports.len() - e,
        {
            let entry = &self.re_exports[e];
            assert(re_export_views(self.re_exports@)[e as int] == (
                text_view(entry.0),
                taken_view(entry.1),
                (entry.2.0, text_view(entry.2.1)),
                entry.3,
            ));
            let imported: Option<ImportedName> = match &entry.2.1 {
                Some(name) => Some(ImportedName::Named(name.clone())),
                None => if entry.2.0 {
                    Some(ImportedName::Namespace { members: None })
                } else {
                    None
                },
            };
            match (&entry.0, exported_as(&entry.1), imported) {
                (Some(source), Some(exported), Some(imported)) => if typed || !entry.3 {
                    let item = ReExport { exported, source: source.clone(), imported };
                    let ghost before = re_export_models(out@);
                    let ghost m = item@;
                    out.push(item);
                    assert(re_export_models(out@) =~= before.push(m));
                },
                _ => {},
            }
            e += 1;
        }
        out
    }

    /// The modules that the module passes on whole.
    pub(crate) fn list_passed_whole(&self, typed: bool) -> (r: Vec<String>)
        ensures
            texts(r@) == self.passed_whole(typed, self.stars@.len() as int),
    {
        let mut out: Vec<String> = Vec::new();
        let mut e: usize = 0;
        assert(texts(out@) =~= self.passed_whole(typed, 0));
        while e < self.stars.len()
            invariant
                e <= self.stars.len(),
                texts(out@) == self.passed_whole(typed, e as int),
            decreases self.stars.len() - e,
        {
            let entry = &self.stars[e];
            assert(star_views(self.stars@)[e as int] == (text_view(entry.0), entry.1));
            match &entry.0 {
                Some(source) => if typed || !entry.1 {
                    let ghost before = texts(out@);
                    out.push(source.clone());
                    assert(texts(out@) =~= before.push(source@));
                },
                None => {},
            }
            e += 1;
        }
        out
    }

    fn add_import_requests(&self, out: &mut KeySet<String>)
        ensures
            forall|name: Text| #[trigger]
                final(out)@.contains(name) == (old(out)@.contains(name) || exists|e: int| #[trigger]
                    self.import_asks(e, name)),
    {
        let ghost start = out@;
        let mut e: usize = 0;
        while e < self.imports.len()
            invariant
                e <= self.imports.len(),
                forall|name: Text| #[trigger]
                    out@.contains(name) == (start.contains(name) || exists|j: int|
                        0 <= j < e && #[trigger] self.import_asks(j, name)),
            decreases self.imports.len() - e,
        {
            let ghost before = out@;
            let entry = &self.imports[e];
            assert(import_views(self.imports@)[e as int] == (
                entry.0@,
                entry.1@,
                taken_view(entry.2),
                entry.3,
                entry.4,
            ));
            let asks = !entry.3 && (self.references_name(entry.1.as_str(), false)
                || !self.references_name(entry.1.as_str(), true));
            if asks {
                out.insert(entry.0.clone());
            }
            proof {
                assert forall|name: Text| #[trigger]
                    out@.contains(name) == (start.contains(name) || exists|j: int|
                        0 <= j < e + 1 && #[trigger] self.import_asks(j, name)) by {
                    assert(before.contains(name) == (start.contains(name) || exists|j: int|
                        0 <= j < e && #[trigger] self.import_asks(j, name)));
                    assert(self.import_asks(e as int, name) == (asks && name == entry.0@));
                }
            }
            e += 1;
        }
    }

    fn add_re_export_requests(&self, out: &mut KeySet<String>)
        ensures
            forall|name: Text| #[trigger]
                final(out)@.contains(name) == (old(out)@.contains(name) || exists|e: int| #[trigger]
                    self.re_export_asks(e, name)),
    {
        let ghost start = out@;
        let mut e: usize = 0;
        while e < self.re_exports.len()
            invariant
                e <= self.re_exports.len(),
                forall|name: Text| #[trigger]
                    out@.contains(name) == (start.contains(name) || exists|j: int|
                        0 <= j < e && #[trigger] self.re_export_asks(j, name)),
            decreases self.re_exports.len() - e,
        {
            let ghost before = out@;
            let entry = &self.re_exports[e];
            assert(re_export_views(self.re_exports@)[e as int] == (
                text_view(entry.0),
                taken_view(entry.1),
                (entry.2.0, text_view(entry.2.1)),
                entry.3,
            ));
            match &entry.0 {
                Some(source) => if !entry.3 {
                    out.insert(source.clone());
                },
                None => {},
            }
            proof {
                assert forall|name: Text| #[trigger]
                    out@.contains(name) == (start.contains(name) || exists|j: int|
                        0 <= j < e + 1 && #[trigger] self.re_export_asks(j, name)) by {
                    assert(before.contains(name) == (start.contains(name) || exists|j: int|
                        0 <= j < e && #[trigger] self.re_export_asks(j, name)));
                    assert(self.re_export_asks(e as int, name) == (!entry.3 && text_view(entry.0)
                        == Some(name)));
                }
            }
            e += 1;
        }
    }

    fn add_star_requests(&self, out: &mut KeySet<String>)
        ensures
            forall|name: Text| #[trigger]
                final(out)@.contains(name) == (old(out)@.contains(name) || exists|e: int| #[trigger]
                    self.star_asks(e, name)),
    {
        let ghost start = out@;
        let mut e: usize = 0;
        while e < self.stars.len()
            invariant
                e <= self.stars.len(),
                forall|name: Text| #[trigger]
                    out@.contains(name) == (start.contains(name) || exists|j: int|
                        0 <= j < e && #[trigger] self.star_asks(j, name)),
            decreases self.stars.len() - e,
        {
            let ghost before = out@;
            let entry = &self.stars[e];
            assert(star_views(self.stars@)[e as int] == (text_view(entry.0), entry.1));
            match &entry.0 {
                Some(source) => if !entry.1 {
                    out.insert(source.clone());
                },
                None => {},
            }
            proof {
                assert forall|name: Text| #[trigger]
                    out@.contains(name) == (start.contains(name) || exists|j: int|
                        0 <= j < e + 1 && #[trigger] self.star_asks(j, name)) by {
                    assert(before.contains(name) == (start.contains(name) || exists|j: int|
                        0 <= j < e && #[trigger] self.star_asks(j, name)));
                    assert(self.star_asks(e as int, name) == (!entry.1 && text_view(entry.0) == Some(
                        name,
                    )));
                }
            }
            e += 1;
        }
    }

    fn import_stands_at(&self, span: (usize, usize)) -> (r: bool)
        ensures
            r == self.binds_at(span),
    {
        let mut e: usize = 0;
        while e < self.imports.len()
            invariant
                e <= self.imports.len(),
                forall|j: int| 0 <= j < e ==> (#[trigger] self.imports@[j]).4 != span,
            decreases self.imports.len() - e,
        {
            if self.imports[e].4.0 == span.0 && self.imports[e].4.1 == span.1 {
                assert(self.imports@[e as int].4 == span);
                return true;
            }
            e += 1;
        }
        false
    }

    fn add_effect_requests(&self, out: &mut KeySet<String>)
        ensures
            forall|name: Text| #[trigger]
                final(out)@.contains(name) == (old(out)@.contains(name) || exists|e: int| #[trigger]
                    self.effect_asks(e, name)),
    {
        let ghost start = out@;
        let mut e: usize = 0;
        while e < self.requests.len()
            invariant
                e <= self.requests.len(),
                forall|name: Text| #[trigger]
                    out@.contains(name) == (start.contains(name) || exists|j: int|
                        0 <= j < e && #[trigger] self.effect_asks(j, name)),
            decreases self.requests.len() - e,
        {
            let ghost before = out@;
            let entry = &self.requests[e];
            assert(request_views(self.requests@)[e as int] == (entry.0@, entry.1, entry.2));
            let asks = entry.1.0 && !entry.1.1 && !self.import_stands_at(entry.2);
            if asks {
                out.insert(entry.0.clone());
            }
            proof {
                assert forall|name: Text| #[trigger]
                    out@.contains(name) == (start.contains(name) || exists|j: int|
                        0 <= j < e + 1 && #[trigger] self.effect_asks(j, name)) by {
                    assert(before.contains(name) == (start.contains(name) || exists|j: int|
                        0 <= j < e && #[trigger] self.effect_asks(j, name)));
                    assert(self.effect_asks(e as int, name) == (asks && name == entry.0@));
                }
            }
            e += 1;
        }
    }

    /// The modules that the module asks for at run time.
    pub(crate) fn list_requested(&self) -> (r: KeySet<String>)
        ensures
            r@ == self.requested(),
    {
        let mut out: KeySet<String> = KeySet::new();
        self.add_import_requests(&mut out);
        self.add_re_export_requests(&mut out);
        self.add_star_requests(&mut out);
        self.add_effect_requests(&mut out);
        assert(out@ =~= self.requested());
        out
    }
}

} // verus!
