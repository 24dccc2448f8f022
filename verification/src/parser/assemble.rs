//! From the syntax of a module to what it declares, imports and exports.
use vstd::prelude::*;

use crate::collections::{first_from_fits, KeyMap};
use crate::order::Key;
use crate::parser::model::{symbol_infos, ModuleModel, SymbolModel, Text};
use crate::parser::source::SourceText;
use crate::parser::syntax::{
    first_parser_error, first_semantic_error, is_source_extension, is_supported, parser_error,
    read_syntax, semantic_error, ModuleSyntax,
};
use crate::parser::tree::{shape_models, RegistryShape};
use crate::parser::{ParsedModule, SymbolInfo, MODULE_INIT};
use crate::path::{extension_of, shown, stem_of, FilePath};
use crate::text::{ends_with, join2, same};

verus! {

impl ModuleSyntax {
    /// A symbol of the module, or the one that stands for loading it.
    pub open spec fn is_symbol(self, name: Text) -> bool {
        name == MODULE_INIT@ || self.top_named(name) is Some
    }

    pub open spec fn all_symbols(self, source: Text) -> Map<Text, SymbolModel> {
        Map::new(
            |name: Text| self.is_symbol(name),
            |name: Text|
                if name == MODULE_INIT@ {
                    self.start_model(source)
                } else {
                    self.symbol_model(source, name)
                },
        )
    }

    /// What the module with this syntax says.
    pub open spec fn module(self, source: Text) -> ModuleModel {
        let imports = self.imports@.len() as int;
        let exports = self.local_exports@.len() as int;
        let passed = self.re_exports@.len() as int;
        let stars = self.stars@.len() as int;
        ModuleModel {
            symbols: self.all_symbols(source),
            registries: self.all_registries(source),
            indexed_registry_dependencies: self.indexed(source),
            imports: self.bindings(source, false, imports),
            type_imports: self.bindings(source, true, imports),
            local_exports: self.own_exports(false, exports),
            type_local_exports: self.own_exports(true, exports),
            re_exports: self.passed_on(false, passed),
            type_re_exports: self.passed_on(true, passed),
            star_exports: self.passed_whole(false, stars),
            type_star_exports: self.passed_whole(true, stars),
            module_requests: self.requested(),
            runtime_loads: self.all_loads(source, self.nodes@.len() as int),
            unresolved_dynamic_imports: self.open_imports(
                source,
                self.dynamic_imports@.len() as int,
            ),
        }
    }

    fn describe_symbols(&self, source: &SourceText, shapes: &KeyMap<String, RegistryShape>) -> (r:
        KeyMap<String, SymbolInfo>)
        requires
            shape_models(shapes@) == self.registry_models(),
            forall|n: Text| #[trigger]
                shapes@.dom().contains(n) ==> self.shape_fits(shapes@[n]@) && self.top_named(n) is Some,
        ensures
            forall|n: Text| #[trigger] r@.dom().contains(n) == self.top_named(n) is Some,
            forall|n: Text| #[trigger]
                r@.dom().contains(n) ==> r@[n]@ == self.symbol_model(source@, n),
    {
        let mut out: KeyMap<String, SymbolInfo> = KeyMap::new();
        let mut i: usize = 0;
        while i < self.symbols.len()
            invariant
                i <= self.symbols.len(),
                shape_models(shapes@) == self.registry_models(),
                forall|n: Text| #[trigger]
                    shapes@.dom().contains(n) ==> self.shape_fits(shapes@[n]@) && self.top_named(n) is Some,
                forall|n: Text| #[trigger]
                    out@.dom().contains(n) ==> self.top_named(n) is Some && out@[n]@
                        == self.symbol_model(source@, n),
                forall|j: int|
                    0 <= j < i && #[trigger] self.is_top(j) ==> out@.dom().contains(
                        self.symbols@[j].name@,
                    ),
            decreases self.symbols.len() - i,
        {
            let name = &self.symbols[i].name;
            if self.top_is(i) && !out.contains_key(name) {
                proof {
                    let p = self.is_top_named(name@);
                    first_from_fits(p, 0, self.symbols@.len() as int);
                    assert(p(i as int));
                }
                let info = self.describe_symbol(source, shapes, name);
                out.insert(name.clone(), info);
            }
            i += 1;
        }
        proof {
            assert forall|n: Text| #[trigger] out@.dom().contains(n) == self.top_named(n) is Some by {
                let p = self.is_top_named(n);
                first_from_fits(p, 0, self.symbols@.len() as int);
                if self.top_named(n) is Some {
                    let j = self.top_named(n)->0;
                    assert(p(j));
                    assert(self.is_top(j));
                }
            }
        }
        out
    }

    /// What the module with this syntax says.
    pub fn assemble(&self, source: &str) -> (r: ParsedModule)
        ensures
            r@ == self.module(source@),
    {
        let text = SourceText::new(source);
        let shapes = self.list_registries();
        let mut symbols = self.describe_symbols(&text, &shapes);
        let re_exports = self.list_passed_on(false);
        let star_exports = self.list_passed_whole(false);
        let module_requests = self.list_requested();
        let start = self.describe_start(&text, &re_exports, &star_exports, &module_requests);
        let ghost before = symbols@;
        symbols.insert(MODULE_INIT.to_owned(), start);
        proof {
            let all = self.all_symbols(source@);
            assert forall|n: Text| #[trigger]
                symbol_infos(symbols@).dom().contains(n) == all.dom().contains(n) by {
                assert(before.dom().contains(n) == self.top_named(n) is Some);
            }
            assert forall|n: Text| #[trigger] all.dom().contains(n) implies symbol_infos(symbols@)[n]
                == all[n] by {
                assert(symbol_infos(symbols@).dom().contains(n));
                assert(before.dom().contains(n) == self.top_named(n) is Some);
            }
            assert(symbol_infos(symbols@) =~= all);
        }
        let (runtime_loads, unresolved_dynamic_imports) = self.list_loads(&text);
        ParsedModule {
            symbols,
            registries: self.describe_registries(&text, &shapes),
            indexed_registry_dependencies: self.list_indexed(&text),
            imports: self.list_bindings(&text, false),
            type_imports: self.list_bindings(&text, true),
            local_exports: self.list_own_exports(false),
            type_local_exports: self.list_own_exports(true),
            re_exports,
            type_re_exports: self.list_passed_on(true),
            star_exports,
            type_star_exports: self.list_passed_whole(true),
            module_requests,
            runtime_loads,
            unresolved_dynamic_imports,
        }
    }
}

/// Why a file is no module.
#[derive(Clone, Debug, PartialEq, Eq)]
pub enum ParseError {
    /// The parser does not know the extension of the file.
    Unsupported { path: String },
    /// The text is no program.
    Syntax { path: String, reason: String },
    /// The program contradicts itself.
    Semantics { path: String, reason: String },
}

impl ParseError {
    pub open spec fn words(self) -> Text {
        match self {
            ParseError::Unsupported { path } => "unsupported source file "@ + path@,
            ParseError::Syntax { path, reason } => "failed to parse "@ + path@ + ": "@ + reason@,
            ParseError::Semantics { path, reason } => "failed semantic analysis for "@ + path@ + ": "@
                + reason@,
        }
    }

    pub fn message(&self) -> (r: String)
        ensures
            r@ == self.words(),
    {
        match self {
            ParseError::Unsupported { path } => join2("unsupported source file ", path.as_str()),
            ParseError::Syntax { path, reason } => {
                let mut out = join2("failed to parse ", path.as_str());
                out.append(": ");
                out.append(reason.as_str());
                out
            },
            ParseError::Semantics { path, reason } => {
                let mut out = join2("failed semantic analysis for ", path.as_str());
                out.append(": ");
                out.append(reason.as_str());
                out
            },
        }
    }
}

/// An extension of a file that can be parsed.
fn has_source_extension(extension: &Option<String>) -> (r: bool)
    ensures
        r == is_source_extension(crate::parser::syntax::text_view(*extension)),
{
    match extension {
        Some(e) => {
            let e = e.as_str();
            same(e, "js") || same(e, "jsx") || same(e, "mjs") || same(e, "cjs") || same(e, "ts")
                || same(e, "tsx") || same(e, "mts") || same(e, "cts")
        },
        None => false,
    }
}

/// A file that holds a module.
pub fn is_source_file(path: &FilePath) -> (r: bool)
    ensures
        r == is_source_extension(extension_of(path@)),
{
    has_source_extension(&path.extension())
}

/// A directory that holds tests.
pub open spec fn is_test_directory(part: Text) -> bool {
    part == "test"@ || part == "tests"@ || part == "__tests__"@
}

/// A path that leads to a test: a part of it names tests, or the file does.
pub open spec fn is_test_path(path: Seq<Text>) -> bool {
    (exists|i: int| 0 <= i < path.len() && is_test_directory(#[trigger] path[i])) || match stem_of(path) {
        Some(stem) => ".test"@.is_suffix_of(stem) || ".spec"@.is_suffix_of(stem),
        None => false,
    }
}

/// A file that holds tests.
pub fn is_test_file(path: &FilePath) -> (r: bool)
    ensures
        r == is_test_path(path@),
{
    let mut i: usize = 0;
    while i < path.parts.len()
        invariant
            i <= path.parts.len(),
            forall|k: int| 0 <= k < i ==> !is_test_directory(#[trigger] path@[k]),
        decreases path.parts.len() - i,
    {
        let part = path.parts[i].text.as_str();
        assert(path@[i as int] == part@);
        if same(part, "test") || same(part, "tests") || same(part, "__tests__") {
            return true;
        }
        i += 1;
    }
    match path.file_stem() {
        Some(stem) => ends_with(stem.as_str(), ".test") || ends_with(stem.as_str(), ".spec"),
        None => false,
    }
}

/// What a text is when it is read as the file at `path`.
pub open spec fn parsed(path: Seq<Text>, source: Text, r: Result<ParsedModule, ParseError>) -> bool {
    let name = shown(path);
    if !is_supported(name) {
        r matches Err(ParseError::Unsupported { path: p }) && p@ == name
    } else {
        match (parser_error(name, source), semantic_error(name, source)) {
            (Some(e), _) => r matches Err(ParseError::Syntax { path: p, reason }) && p@ == name
                && reason@ == e,
            (None, Some(e)) => r matches Err(ParseError::Semantics { path: p, reason }) && p@ == name
                && reason@ == e,
            (None, None) => r is Ok && exists|syntax: ModuleSyntax| #[trigger]
                syntax.is_of(name, source) && r->Ok_0@ == syntax.module(source),
        }
    }
}

/// Reads a text as the module at `path`.
pub fn parse_module(path: &FilePath, source: &str) -> (r: Result<ParsedModule, ParseError>)
    ensures
        parsed(path@, source@, r),
{
    let name = path.display();
    let whole = FilePath::parse(name.as_str());
    let extension = whole.extension();
    if !has_source_extension(&extension) {
        return Err(ParseError::Unsupported { path: name });
    }
    assert(is_supported(name@));
    match first_parser_error(name.as_str(), source) {
        Some(reason) => {
            return Err(ParseError::Syntax { path: name, reason });
        },
        None => {},
    }
    match first_semantic_error(name.as_str(), source) {
        Some(reason) => {
            return Err(ParseError::Semantics { path: name, reason });
        },
        None => {},
    }
    let syntax = read_syntax(name.as_str(), source);
    let module = syntax.assemble(source);
    Ok(module)
}

} // verus!
