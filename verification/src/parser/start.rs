//! What a module runs when it is loaded, and what it loads later.
use vstd::prelude::*;

use crate::collections::{ascending, ascending_list, ascending_list_is, first_from, KeyMap, KeySet};
use crate::order::Key;
use crate::parser::model::{
    load_views, re_export_models, set_views, texts, ImportedModel, LoadModel, ReExportModel,
    SymbolModel, Text,
};
use crate::parser::source::{location_at, SourceText};
use crate::parser::syntax::{import_views, taken_view, ModuleSyntax};
use crate::parser::{ImportedName, ReExport, RuntimeLoad, SourceLocation, SymbolInfo, MODULE_INIT};
use crate::order::chars_of;
use crate::text::{byte_slice, debug_quoted, debug_text, text_between};

verus! {

impl ModuleSyntax {
    /// The `j`th statement declares a symbol of the module.
    pub open spec fn declares(self, j: int) -> bool {
        exists|c: int| #[trigger]
            self.is_top(c) && self.statements@[j].0 <= self.symbols@[c].start && self.symbols@[c].end
                <= self.statements@[j].1
    }

    /// These bytes stand in a statement that declares a symbol of the module.
    pub open spec fn in_declaration(self, start: usize, end: usize) -> bool {
        exists|j: int|
            0 <= j < self.statements@.len() && self.statements@[j].0 <= start && end
                <= self.statements@[j].1 && #[trigger] self.declares(j)
    }

    /// The module mentions symbol `i` by the `k`th reference when it is loaded.
    pub open spec fn is_start_use(self, i: int, k: int) -> bool {
        let r = self.references@[k];
        self.refers(k, i) && !r.type_only && !self.in_declaration(r.start, r.end) && !self.is_under(
            r.node as int,
            "ExportSpecifier"@,
            self.nodes@.len() as int,
        )
    }

    pub open spec fn start_uses(self, i: int) -> spec_fn(int) -> bool {
        |k: int| self.is_start_use(i, k)
    }

    /// The first reference by which the module mentions symbol `i` when it is loaded.
    pub open spec fn first_start_use(self, i: int) -> Option<int> {
        first_from(self.start_uses(i), 0, self.references@.len() as int)
    }

    /// The symbol is used when the module is loaded.
    pub open spec fn starts_with(self, i: int) -> bool {
        self.is_top(i) && self.is_runtime(i) && self.first_start_use(i) is Some
    }

    /// Of the symbol only fixed properties are read when the module is loaded.
    pub open spec fn starts_keyed(self, i: int, n: int) -> bool {
        forall|k: int| 0 <= k < n && #[trigger] self.is_start_use(i, k) ==> self.key_of(k) is Some
    }

    /// The properties of the symbol that are read when the module is loaded.
    pub open spec fn start_keys(self, i: int, n: int) -> Set<Text> {
        Set::new(
            |key: Text|
                exists|k: int|
                    0 <= k < n && #[trigger] self.is_start_use(i, k) && self.key_of(k) == Some(key),
        )
    }

    /// An import that nothing mentions: loading the module still loads what it names.
    pub open spec fn is_idle_import(self, e: int) -> bool {
        let entry = import_views(self.imports@)[e];
        !entry.3 && !self.is_referenced(entry.1, false) && !self.is_referenced(entry.1, true)
    }

    /// Where the module first uses each of its first `n` symbols when it is loaded.
    pub open spec fn start_places(self, source: Text, n: int) -> Map<Text, SourceLocation>
        decreases n,
    {
        if n <= 0 {
            Map::empty()
        } else if self.starts_with(n - 1) {
            self.start_places(source, n - 1).insert(
                self.symbols@[n - 1].name@,
                location_at(source, self.references@[self.first_start_use(n - 1)->0].start as int),
            )
        } else {
            self.start_places(source, n - 1)
        }
    }

    /// The properties that are read of the first `n` symbols when the module is loaded.
    pub open spec fn start_keyed(self, n: int) -> Map<Text, Set<Text>>
        decreases n,
    {
        let total = self.references@.len() as int;
        if n <= 0 {
            Map::empty()
        } else if self.starts_with(n - 1) && self.starts_keyed(n - 1, total) {
            self.start_keyed(n - 1).insert(
                self.symbols@[n - 1].name@,
                self.start_keys(n - 1, total),
            )
        } else {
            self.start_keyed(n - 1)
        }
    }

    /// Where everything that loading the module uses is named, with the first `n` imports.
    pub open spec fn load_places(self, source: Text, n: int) -> Map<Text, SourceLocation>
        decreases n,
    {
        if n <= 0 {
            self.start_places(source, self.symbols@.len() as int)
        } else if self.is_idle_import(n - 1) {
            let entry = import_views(self.imports@)[n - 1];
            self.load_places(source, n - 1).insert(
                entry.1,
                location_at(source, entry.4.0 as int),
            )
        } else {
            self.load_places(source, n - 1)
        }
    }

    /// The texts of the first `n` tokens that stand outside declarations.
    pub open spec fn loose_text(self, source: Text, n: int) -> Text
        decreases n,
    {
        if n <= 0 {
            Seq::empty()
        } else if self.in_declaration(self.tokens@[n - 1].0, self.tokens@[n - 1].1) {
            self.loose_text(source, n - 1)
        } else {
            self.loose_text(source, n - 1) + self.token_text(source, n - 1)
        }
    }

    /// What loading the module depends on, as text.
    pub open spec fn start_fingerprint(self, source: Text) -> Text {
        let passed = self.passed_on(false, self.re_exports@.len() as int);
        let whole = self.passed_whole(false, self.stars@.len() as int);
        let asked = ascending_list::<String>(self.requested());
        self.loose_text(source, self.tokens@.len() as int) + passed_text(passed, passed.len() as int)
            + listed_text("star:"@, whole, whole.len() as int) + listed_text(
            "request:"@,
            asked,
            asked.len() as int,
        )
    }

    /// The symbol that stands for loading the module.
    pub open spec fn start_model(self, source: Text) -> SymbolModel {
        let places = self.load_places(source, self.imports@.len() as int);
        SymbolModel {
            fingerprint: self.start_fingerprint(source),
            dependencies: places.dom(),
            dependency_locations: places,
            keyed_dependencies: self.start_keyed(self.symbols@.len() as int),
            type_dependencies: Set::empty(),
            type_dependency_locations: Map::empty(),
            runtime: true,
        }
    }

    /// The symbols whose declarations cover these bytes.
    pub open spec fn declared_around(self, start: usize, end: usize) -> Set<Text> {
        Set::new(|name: Text| self.is_inside(name, true, start, end))
    }

    /// A load of a module by an expression at these bytes.
    pub open spec fn load_at(self, source: Text, request: Text, span: (usize, usize)) -> LoadModel {
        let around = self.declared_around(span.0, span.1);
        LoadModel {
            source: request,
            consumers: if around == Set::<Text>::empty() {
                Set::<Text>::empty().insert(MODULE_INIT@)
            } else {
                around
            },
            location: location_at(source, span.0 as int),
        }
    }

    /// The loads by the first `n` dynamic imports whose request is quoted.
    pub open spec fn dynamic_loads(self, source: Text, n: int) -> Seq<LoadModel>
        decreases n,
    {
        if n <= 0 {
            Seq::empty()
        } else {
            let import = self.dynamic_imports@[n - 1];
            match byte_slice(source, import.0.0 as int, import.0.1 as int) {
                Some(text) => if is_quoted(text) {
                    self.dynamic_loads(source, n - 1).push(
                        self.load_at(source, text.subrange(1, text.len() - 1), import.1),
                    )
                } else {
                    self.dynamic_loads(source, n - 1)
                },
                None => self.dynamic_loads(source, n - 1),
            }
        }
    }

    /// The requests of the first `n` dynamic imports that are not quoted.
    pub open spec fn open_imports(self, source: Text, n: int) -> Seq<Text>
        decreases n,
    {
        if n <= 0 {
            Seq::empty()
        } else {
            let import = self.dynamic_imports@[n - 1];
            match byte_slice(source, import.0.0 as int, import.0.1 as int) {
                Some(text) => if is_quoted(text) {
                    self.open_imports(source, n - 1)
                } else {
                    self.open_imports(source, n - 1).push(text)
                },
                None => self.open_imports(source, n - 1),
            }
        }
    }

    /// The loads by dynamic imports and by the `require` calls among the first `n` nodes.
    pub open spec fn all_loads(self, source: Text, n: int) -> Seq<LoadModel>
        decreases n,
    {
        if n <= 0 {
            self.dynamic_loads(source, self.dynamic_imports@.len() as int)
        } else if self.is_kind(n - 1, "CallExpression"@) && self.label_of(n - 1) is Some {
            let node = self.nodes@[n - 1];
            self.all_loads(source, n - 1).push(
                self.load_at(source, self.label_of(n - 1)->0, (node.start, node.end)),
            )
        } else {
            self.all_loads(source, n - 1)
        }
    }
}

/// A text between two equal quotation marks.
pub open spec fn is_quoted(text: Text) -> bool {
    text.len() >= 2 && text.first() == text.last() && (text.first() == '\'' || text.first() == '"')
}

/// What an export takes, as text.
pub open spec fn imported_text(imported: ImportedModel) -> Text {
    match imported {
        ImportedModel::Named(name) => "Named("@ + debug_quoted(name) + ")"@,
        ImportedModel::Namespace(_) => "Namespace { members: None }"@,
    }
}

/// The first `n` exports that are taken from other modules, as text.
pub open spec fn passed_text(list: Seq<ReExportModel>, n: int) -> Text
    decreases n,
{
    if n <= 0 {
        Seq::empty()
    } else {
        passed_text(list, n - 1) + "reexport:"@ + list[n - 1].exported + ":"@ + list[n - 1].source
            + ":"@ + imported_text(list[n - 1].imported) + ";"@
    }
}

/// The first `n` names, each behind a word.
pub open spec fn listed_text(word: Text, list: Seq<Text>, n: int) -> Text
    decreases n,
{
    if n <= 0 {
        Seq::empty()
    } else {
        listed_text(word, list, n - 1) + word + list[n - 1] + ";"@
    }
}

impl ModuleSyntax {
    fn statement_declares(&self, j: usize) -> (r: bool)
        requires
            j < self.statements@.len(),
        ensures
            r == self.declares(j as int),
    {
        let mut c: usize = 0;
        while c < self.symbols.len()
            invariant
                c <= self.symbols.len(),
                j < self.statements@.len(),
                forall|d: int|
                    0 <= d < c && #[trigger] self.is_top(d) ==> !(self.statements@[j as int].0
                        <= self.symbols@[d].start && self.symbols@[d].end
                        <= self.statements@[j as int].1),
            decreases self.symbols.len() - c,
        {
            if self.top_is(c) && self.statements[j].0 <= self.symbols[c].start && self.symbols[c].end
                <= self.statements[j].1 {
                return true;
            }
            c += 1;
        }
        false
    }

    /// The statements that declare a symbol of the module.
    fn declaring(&self) -> (r: Vec<usize>)
        ensures
            forall|j: usize| #[trigger]
                r@.contains(j) == (j < self.statements@.len() && self.declares(j as int)),
    {
        let mut out: Vec<usize> = Vec::new();
        let mut i: usize = 0;
        while i < self.statements.len()
            invariant
                i <= self.statements.len(),
                forall|j: usize| #[trigger]
                    out@.contains(j) == (j < i && self.declares(j as int)),
            decreases self.statements.len() - i,
        {
            let ghost before = out@;
            if self.statement_declares(i) {
                out.push(i);
                proof {
                    crate::collections::push_to_set(before, i);
                    assert forall|j: usize| #[trigger]
                        out@.contains(j) == (before.contains(j) || j == i) by {
                        assert(out@.to_set().contains(j) == before.to_set().insert(i).contains(j));
                    }
                }
            }
            i += 1;
        }
        out
    }

    fn stands_in_declaration(&self, declaring: &Vec<usize>, start: usize, end: usize) -> (r: bool)
        requires
            forall|j: usize| #[trigger]
                declaring@.contains(j) == (j < self.statements@.len() && self.declares(j as int)),
        ensures
            r == self.in_declaration(start, end),
    {
        let n = self.statements.len();
        let mut i: usize = 0;
        while i < declaring.len()
            invariant
                i <= declaring.len(),
                forall|j: usize| #[trigger]
                    declaring@.contains(j) == (j < self.statements@.len() && self.declares(j as int)),
                forall|k: int|
                    0 <= k < i ==> !(self.statements@[#[trigger] declaring@[k] as int].0 <= start
                        && end <= self.statements@[declaring@[k] as int].1),
            decreases declaring.len() - i,
        {
            let j = declaring[i];
            assert(declaring@.contains(j));
            if self.statements[j].0 <= start && end <= self.statements[j].1 {
                assert(self.declares(j as int));
                return true;
            }
            i += 1;
        }
        proof {
            assert forall|j: int|
                0 <= j < self.statements@.len() && #[trigger] self.declares(j) implies !(
            self.statements@[j].0 <= start && end <= self.statements@[j].1) by {
                assert(0 <= j < n);
                assert(declaring@.contains(j as usize));
                let k = choose|k: int| 0 <= k < declaring@.len() && declaring@[k] == j as usize;
            }
        }
        false
    }

    fn start_use(&self, declaring: &Vec<usize>, i: usize, k: usize) -> (r: bool)
        requires
            k < self.references@.len(),
            forall|j: usize| #[trigger]
                declaring@.contains(j) == (j < self.statements@.len() && self.declares(j as int)),
        ensures
            r == self.is_start_use(i as int, k as int),
    {
        let r = &self.references[k];
        r.symbol == i && !r.type_only && !self.stands_in_declaration(declaring, r.start, r.end)
            && !self.lies_under(r.node, "ExportSpecifier")
    }

    fn find_start_use(&self, declaring: &Vec<usize>, i: usize) -> (r: Option<usize>)
        requires
            forall|j: usize| #[trigger]
                declaring@.contains(j) == (j < self.statements@.len() && self.declares(j as int)),
        ensures
            match r {
                Some(k) => k < self.references@.len() && self.first_start_use(i as int) == Some(
                    k as int,
                ),
                None => self.first_start_use(i as int) is None,
            },
    {
        let ghost p = self.start_uses(i as int);
        let ghost n = self.references@.len() as int;
        let mut k: usize = 0;
        while k < self.references.len()
            invariant
                k <= self.references.len(),
                p == self.start_uses(i as int),
                n == self.references@.len(),
                first_from(p, k as int, n) == first_from(p, 0, n),
                forall|j: usize| #[trigger]
                    declaring@.contains(j) == (j < self.statements@.len() && self.declares(j as int)),
            decreases self.references.len() - k,
        {
            if self.start_use(declaring, i, k) {
                assert(p(k as int));
                return Some(k);
            }
            assert(!p(k as int));
            k += 1;
        }
        None
    }

    fn list_start_keys(&self, declaring: &Vec<usize>, i: usize) -> (r: Option<KeySet<String>>)
        requires
            forall|j: usize| #[trigger]
                declaring@.contains(j) == (j < self.statements@.len() && self.declares(j as int)),
        ensures
            match r {
                Some(keys) => self.starts_keyed(i as int, self.references@.len() as int) && keys@
                    == self.start_keys(i as int, self.references@.len() as int),
                None => !self.starts_keyed(i as int, self.references@.len() as int),
            },
    {
        let mut out: KeySet<String> = KeySet::new();
        let mut k: usize = 0;
        while k < self.references.len()
            invariant
                k <= self.references.len(),
                forall|j: usize| #[trigger]
                    declaring@.contains(j) == (j < self.statements@.len() && self.declares(j as int)),
                self.starts_keyed(i as int, k as int),
                forall|key: Text| #[trigger]
                    out@.contains(key) == self.start_keys(i as int, k as int).contains(key),
            decreases self.references.len() - k,
        {
            let ghost before = out@;
            let used = self.start_use(declaring, i, k);
            if used {
                match self.read_key(self.references[k].node) {
                    Some(key) => {
                        out.insert(key);
                    },
                    None => {
                        assert(self.is_start_use(i as int, k as int));
                        return None;
                    },
                }
            }
            proof {
                assert forall|key: Text| #[trigger]
                    out@.contains(key) == self.start_keys(i as int, k + 1).contains(key) by {
                    assert(before.contains(key) == self.start_keys(i as int, k as int).contains(key));
                    if before.contains(key) {
                        let j = choose|j: int|
                            0 <= j < k && #[trigger] self.is_start_use(i as int, j) && self.key_of(j)
                                == Some(key);
                        assert(self.is_start_use(i as int, j));
                    }
                    if used && self.key_of(k as int) == Some(key) {
                        assert(self.is_start_use(i as int, k as int));
                    }
                }
            }
            k += 1;
        }
        assert(out@ =~= self.start_keys(i as int, self.references@.len() as int));
        Some(out)
    }

    fn list_start_places(&self, source: &SourceText, declaring: &Vec<usize>) -> (r: KeyMap<
        String,
        SourceLocation,
    >)
        requires
            forall|j: usize| #[trigger]
                declaring@.contains(j) == (j < self.statements@.len() && self.declares(j as int)),
        ensures
            r@ == self.start_places(source@, self.symbols@.len() as int),
    {
        let mut out: KeyMap<String, SourceLocation> = KeyMap::new();
        let mut i: usize = 0;
        while i < self.symbols.len()
            invariant
                i <= self.symbols.len(),
                forall|j: usize| #[trigger]
                    declaring@.contains(j) == (j < self.statements@.len() && self.declares(j as int)),
                out@ == self.start_places(source@, i as int),
            decreases self.symbols.len() - i,
        {
            let s = &self.symbols[i];
            if self.top_is(i) && s.is_value && !s.is_type_import {
                match self.find_start_use(declaring, i) {
                    Some(k) => {
                        out.insert(s.name.clone(), source.location(self.references[k].start));
                    },
                    None => {},
                }
            }
            i += 1;
        }
        out
    }

    fn list_start_keyed(&self, declaring: &Vec<usize>) -> (r: KeyMap<String, KeySet<String>>)
        requires
            forall|j: usize| #[trigger]
                declaring@.contains(j) == (j < self.statements@.len() && self.declares(j as int)),
        ensures
            set_views(r@) == self.start_keyed(self.symbols@.len() as int),
    {
        let mut out: KeyMap<String, KeySet<String>> = KeyMap::new();
        let mut i: usize = 0;
        assert(set_views(out@) =~= self.start_keyed(0));
        while i < self.symbols.len()
            invariant
                i <= self.symbols.len(),
                forall|j: usize| #[trigger]
                    declaring@.contains(j) == (j < self.statements@.len() && self.declares(j as int)),
                set_views(out@) == self.start_keyed(i as int),
            decreases self.symbols.len() - i,
        {
            let s = &self.symbols[i];
            if self.top_is(i) && s.is_value && !s.is_type_import && self.find_start_use(
                declaring,
                i,
            ).is_some() {
                match self.list_start_keys(declaring, i) {
                    Some(keys) => {
                        let ghost before = set_views(out@);
                        let ghost k = keys@;
                        out.insert(s.name.clone(), keys);
                        assert(set_views(out@) =~= before.insert(s.name@, k));
                    },
                    None => {},
                }
            }
            i += 1;
        }
        out
    }

    fn list_load_places(&self, source: &SourceText, declaring: &Vec<usize>) -> (r: KeyMap<
        String,
        SourceLocation,
    >)
        requires
            forall|j: usize| #[trigger]
                declaring@.contains(j) == (j < self.statements@.len() && self.declares(j as int)),
        ensures
            r@ == self.load_places(source@, self.imports@.len() as int),
    {
        let mut out = self.list_start_places(source, declaring);
        let mut e: usize = 0;
        while e < self.imports.len()
            invariant
                e <= self.imports.len(),
                out@ == self.load_places(source@, e as int),
            decreases self.imports.len() - e,
        {
            let entry = &self.imports[e];
            assert(import_views(self.imports@)[e as int] == (
                entry.0@,
                entry.1@,
                taken_view(entry.2),
                entry.3,
                entry.4,
            ));
            if !entry.3 && !self.references_name(entry.1.as_str(), false) && !self.references_name(
                entry.1.as_str(),
                true,
            ) {
                out.insert(entry.1.clone(), source.location(entry.4.0));
            }
            e += 1;
        }
        out
    }

    fn write_loose_text(&self, source: &SourceText, declaring: &Vec<usize>) -> (r: String)
        requires
            forall|j: usize| #[trigger]
                declaring@.contains(j) == (j < self.statements@.len() && self.declares(j as int)),
        ensures
            r@ == self.loose_text(source@, self.tokens@.len() as int),
    {
        let mut out = String::new();
        let mut i: usize = 0;
        assert(out@ =~= self.loose_text(source@, 0));
        while i < self.tokens.len()
            invariant
                i <= self.tokens.len(),
                forall|j: usize| #[trigger]
                    declaring@.contains(j) == (j < self.statements@.len() && self.declares(j as int)),
                out@ == self.loose_text(source@, i as int),
            decreases self.tokens.len() - i,
        {
            let (start, end) = self.tokens[i];
            if !self.stands_in_declaration(declaring, start, end) {
                out.append(source.text(start, end).as_str());
            }
            i += 1;
        }
        out
    }

    /// The symbol that stands for loading the module.
    pub(crate) fn describe_start(
        &self,
        source: &SourceText,
        passed: &Vec<ReExport>,
        whole: &Vec<String>,
        asked: &KeySet<String>,
    ) -> (r: SymbolInfo)
        requires
            re_export_models(passed@) == self.passed_on(false, self.re_exports@.len() as int),
            texts(whole@) == self.passed_whole(false, self.stars@.len() as int),
            asked@ == self.requested(),
        ensures
            r@ == self.start_model(source@),
    {
        let declaring = self.declaring();
        let mut fingerprint = self.write_loose_text(source, &declaring);
        fingerprint.append(write_passed(passed).as_str());
        fingerprint.append(write_listed("star:", whole).as_str());
        fingerprint.append(write_requests(asked).as_str());
        proof {
            ascending_list_is::<String>(asked.list(), self.requested());
            assert(fingerprint@ =~= self.start_fingerprint(source@));
        }
        let places = self.list_load_places(source, &declaring);
        let used = names_of(&places);
        SymbolInfo {
            fingerprint,
            dependencies: used,
            dependency_locations: places,
            keyed_dependencies: self.list_start_keyed(&declaring),
            type_dependencies: KeySet::new(),
            type_dependency_locations: KeyMap::new(),
            runtime: true,
        }
    }

    fn list_around(&self, start: usize, end: usize) -> (r: KeySet<String>)
        ensures
            r@ == self.declared_around(start, end),
    {
        let mut out: KeySet<String> = KeySet::new();
        let mut c: usize = 0;
        while c < self.symbols.len()
            invariant
                c <= self.symbols.len(),
                forall|name: Text| #[trigger]
                    out@.contains(name) == (exists|d: int|
                        0 <= d < c && #[trigger] self.is_owner(d, name, true) && self.declares_over(
                            d,
                            start,
                            end,
                        )),
            decreases self.symbols.len() - c,
        {
            let ghost before = out@;
            let s = &self.symbols[c];
            let fits = self.top_is(c) && s.is_value && !s.is_type_import && s.start <= start && end
                <= s.end;
            if fits {
                out.insert(s.name.clone());
            }
            proof {
                assert forall|name: Text| #[trigger]
                    out@.contains(name) == (exists|d: int|
                        0 <= d < c + 1 && #[trigger] self.is_owner(d, name, true)
                            && self.declares_over(d, start, end)) by {
                    assert(before.contains(name) == (exists|d: int|
                        0 <= d < c && #[trigger] self.is_owner(d, name, true) && self.declares_over(
                            d,
                            start,
                            end,
                        )));
                    if fits && name == s.name@ {
                        assert(self.is_owner(c as int, name, true));
                    }
                }
            }
            c += 1;
        }
        assert(out@ =~= self.declared_around(start, end));
        out
    }

    fn describe_load(&self, source: &SourceText, request: String, span: (usize, usize)) -> (r:
        RuntimeLoad)
        ensures
            r@ == self.load_at(source@, request@, span),
    {
        let mut consumers = self.list_around(span.0, span.1);
        if consumers.len() == 0 {
            consumers.insert(MODULE_INIT.to_owned());
        }
        RuntimeLoad { source: request, consumers, location: source.location(span.0) }
    }

    /// The loads of other modules by dynamic imports and `require` calls, and the requests of the
    /// dynamic imports that name no module.
    pub(crate) fn list_loads(&self, source: &SourceText) -> (r: (Vec<RuntimeLoad>, Vec<String>))
        ensures
            load_views(r.0@) == self.all_loads(source@, self.nodes@.len() as int),
            texts(r.1@) == self.open_imports(source@, self.dynamic_imports@.len() as int),
    {
        let mut loads: Vec<RuntimeLoad> = Vec::new();
        let mut unresolved: Vec<String> = Vec::new();
        let mut i: usize = 0;
        assert(load_views(loads@) =~= self.dynamic_loads(source@, 0));
        assert(texts(unresolved@) =~= self.open_imports(source@, 0));
        while i < self.dynamic_imports.len()
            invariant
                i <= self.dynamic_imports.len(),
                load_views(loads@) == self.dynamic_loads(source@, i as int),
                texts(unresolved@) == self.open_imports(source@, i as int),
            decreases self.dynamic_imports.len() - i,
        {
            let (inner, span) = self.dynamic_imports[i];
            match source.get(inner.0, inner.1) {
                Some(text) => match unquote(text.as_str()) {
                    Some(request) => {
                        let load = self.describe_load(source, request, span);
                        let ghost before = load_views(loads@);
                        let ghost m = load@;
                        loads.push(load);
                        assert(load_views(loads@) =~= before.push(m));
                    },
                    None => {
                        let ghost before = texts(unresolved@);
                        let ghost t = text@;
                        unresolved.push(text);
                        assert(texts(unresolved@) =~= before.push(t));
                    },
                },
                None => {},
            }
            i += 1;
        }
        let mut id: usize = 0;
        while id < self.nodes.len()
            invariant
                id <= self.nodes.len(),
                load_views(loads@) == self.all_loads(source@, id as int),
            decreases self.nodes.len() - id,
        {
            if self.kind_is(id, "CallExpression") {
                match self.label(id) {
                    Some(request) => {
                        let span = (self.nodes[id].start, self.nodes[id].end);
                        let load = self.describe_load(source, request, span);
                        let ghost before = load_views(loads@);
                        let ghost m = load@;
                        loads.push(load);
                        assert(load_views(loads@) =~= before.push(m));
                    },
                    None => {},
                }
            }
            id += 1;
        }
        (loads, unresolved)
    }
}

/// The text between quotation marks.
fn unquote(text: &str) -> (r: Option<String>)
    ensures
        match r {
            Some(inner) => is_quoted(text@) && inner@ == text@.subrange(1, text@.len() - 1),
            None => !is_quoted(text@),
        },
{
    let chars = chars_of(text);
    let n = chars.len();
    if n < 2 || chars[0] != chars[n - 1] || (chars[0] != '\'' && chars[0] != '"') {
        return None;
    }
    Some(text_between(&chars, 1, n - 1))
}

fn write_imported(imported: &ImportedName) -> (r: String)
    ensures
        r@ == imported_text(imported@),
{
    match imported {
        ImportedName::Named(name) => {
            let mut out = "Named(".to_owned();
            out.append(debug_text(name.as_str()).as_str());
            out.append(")");
            out
        },
        ImportedName::Namespace { members: Some(_) } => "Namespace { members: None }".to_owned(),
        ImportedName::Namespace { members: None } => "Namespace { members: None }".to_owned(),
    }
}

fn write_passed(list: &Vec<ReExport>) -> (r: String)
    ensures
        r@ == passed_text(re_export_models(list@), list@.len() as int),
{
    let ghost all = re_export_models(list@);
    let mut out = String::new();
    let mut i: usize = 0;
    assert(out@ =~= passed_text(all, 0));
    while i < list.len()
        invariant
            i <= list.len(),
            all == re_export_models(list@),
            out@ == passed_text(all, i as int),
        decreases list.len() - i,
    {
        let item = &list[i];
        assert(all[i as int] == item@);
        out.append("reexport:");
        out.append(item.exported.as_str());
        out.append(":");
        out.append(item.source.as_str());
        out.append(":");
        out.append(write_imported(&item.imported).as_str());
        out.append(";");
        i += 1;
    }
    out
}

fn write_listed(word: &str, list: &Vec<String>) -> (r: String)
    ensures
        r@ == listed_text(word@, texts(list@), list@.len() as int),
{
    let ghost all = texts(list@);
    let mut out = String::new();
    let mut i: usize = 0;
    assert(out@ =~= listed_text(word@, all, 0));
    while i < list.len()
        invariant
            i <= list.len(),
            all == texts(list@),
            out@ == listed_text(word@, all, i as int),
        decreases list.len() - i,
    {
        assert(all[i as int] == list@[i as int]@);
        out.append(word);
        out.append(list[i].as_str());
        out.append(";");
        i += 1;
    }
    out
}

fn write_requests(asked: &KeySet<String>) -> (r: String)
    ensures
        r@ == listed_text("request:"@, asked.list(), asked.list().len() as int),
        ascending::<String>(asked.list()),
{
    let count = asked.len();
    let ghost all = asked.list();
    let mut out = String::new();
    let mut i: usize = 0;
    assert(out@ =~= listed_text("request:"@, all, 0));
    while i < count
        invariant
            i <= count,
            all == asked.list(),
            count == all.len(),
            out@ == listed_text("request:"@, all, i as int),
        decreases count - i,
    {
        out.append("request:");
        out.append(asked.at(i).as_str());
        out.append(";");
        i += 1;
    }
    out
}

/// The keys of a map.
fn names_of(map: &KeyMap<String, SourceLocation>) -> (r: KeySet<String>)
    ensures
        r@ == map@.dom(),
{
    let count = map.len();
    let ghost keys = map.keys();
    let mut out: KeySet<String> = KeySet::new();
    let mut i: usize = 0;
    assert(out@ =~= keys.take(0).to_set());
    while i < count
        invariant
            i <= count,
            keys == map.keys(),
            count == keys.len(),
            out@ == keys.take(i as int).to_set(),
        decreases count - i,
    {
        out.insert(map.key_at(i).clone());
        proof {
            assert(keys.take(i + 1) =~= keys.take(i as int).push(keys[i as int]));
            crate::collections::push_to_set(keys.take(i as int), keys[i as int]);
        }
        i += 1;
    }
    assert(keys.take(count as int) =~= keys);
    out
}

} // verus!
