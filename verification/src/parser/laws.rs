//! What holds of every module that is parsed.
use vstd::prelude::*;

use crate::collections::{first_from_fits, last_before_fits};
use crate::order::Key;
use crate::parser::assemble::parsed;
use crate::parser::model::{
    binding_views, re_export_models, texts, ImportedModel, ReExportModel, Text,
};
use crate::parser::syntax::{
    import_views, is_source_extension, local_export_views, re_export_views, star_views,
    tree_imports, tree_local_exports, tree_re_exports, tree_references, tree_root, tree_stars,
    tree_symbols, ModuleSyntax, ReferenceFact, SymbolFact,
};
use crate::parser::source::text_at;
use crate::parser::{ParsedModule, MODULE_INIT};
use crate::path::shown;

verus! {

/// The files that hold modules.
pub proof fn scripts_are_sources(extension: Text)
    ensures
        is_source_extension(Some(extension)) == (extension == "js"@ || extension == "jsx"@ || extension
            == "mjs"@ || extension == "cjs"@ || extension == "ts"@ || extension == "tsx"@ || extension
            == "mts"@ || extension == "cts"@),
        !is_source_extension(None),
{
}

/// The syntax that a module was assembled from.
proof fn modules_have_syntax(path: Seq<Text>, source: Text, m: ParsedModule) -> (r: ModuleSyntax)
    requires
        parsed(path, source, Ok(m)),
    ensures
        r.is_of(shown(path), source),
        m@ == r.module(source),
{
    choose|syntax: ModuleSyntax| #[trigger]
        syntax.is_of(shown(path), source) && m@ == syntax.module(source)
}

proof fn bindings_come_from_imports(
    syntax: ModuleSyntax,
    source: Text,
    typed: bool,
    n: int,
    local: Text,
)
    requires
        0 <= n <= syntax.imports@.len(),
    ensures
        syntax.bindings(source, typed, n).dom().contains(local) == (exists|e: int|
            0 <= e < n && #[trigger] import_views(syntax.imports@)[e].1 == local && syntax.binds(
                e,
                typed,
            )),
        forall|e: int|
            0 <= e < n && #[trigger] import_views(syntax.imports@)[e].1 == local && syntax.binds(
                e,
                typed,
            ) && (forall|f: int|
                e < f < n && #[trigger] import_views(syntax.imports@)[f].1 == local ==> !syntax.binds(
                    f,
                    typed,
                )) ==> syntax.bindings(source, typed, n)[local] == syntax.binding_at(source, e),
    decreases n,
{
    if n > 0 {
        bindings_come_from_imports(syntax, source, typed, n - 1, local);
        let views = import_views(syntax.imports@);
        if views[n - 1].1 == local && syntax.binds(n - 1, typed) {
            assert(views[n - 1].1 == local);
        }
        assert forall|e: int|
            0 <= e < n && #[trigger] views[e].1 == local && syntax.binds(e, typed) && (forall|f: int|
                e < f < n && #[trigger] views[f].1 == local ==> !syntax.binds(f, typed)) implies
            syntax.bindings(source, typed, n)[local] == syntax.binding_at(source, e) by {
            if e < n - 1 {
                assert(!(views[n - 1].1 == local && syntax.binds(n - 1, typed)));
            }
        }
    }
}

/// What an import takes, in the words of the syntax tree: one name, the export `default`, or the
/// whole module.
pub open spec fn takes(imported: ImportedModel, taken: Option<Option<Text>>) -> bool {
    match taken {
        Some(Some(name)) => imported == ImportedModel::Named(name),
        Some(None) => imported == ImportedModel::Named("default"@),
        None => imported is Namespace,
    }
}

/// A value import binds its local name to what it takes from the module that it names; of several
/// imports under one name the last counts. Nothing else is bound.
pub proof fn imports_bind_their_names(path: Seq<Text>, source: Text, m: ParsedModule, local: Text)
    requires
        parsed(path, source, Ok(m)),
    ensures
        m.imports@.dom().contains(local) == (exists|e: int|
            0 <= e < tree_imports(shown(path), source).len() && (#[trigger] tree_imports(
                shown(path),
                source,
            )[e]).1 == local && !tree_imports(shown(path), source)[e].3),
        forall|e: int|
            0 <= e < tree_imports(shown(path), source).len() && (#[trigger] tree_imports(
                shown(path),
                source,
            )[e]).1 == local && !tree_imports(shown(path), source)[e].3 && (forall|f: int|
                e < f < tree_imports(shown(path), source).len() && (#[trigger] tree_imports(
                    shown(path),
                    source,
                )[f]).1 == local ==> tree_imports(shown(path), source)[f].3)
                ==> m.imports@[local].source@ == tree_imports(shown(path), source)[e].0 && takes(
                m.imports@[local].imported@,
                tree_imports(shown(path), source)[e].2,
            ),
{
    let syntax = modules_have_syntax(path, source, m);
    let views = tree_imports(shown(path), source);
    let n = syntax.imports@.len() as int;
    assert(import_views(syntax.imports@) == views);
    assert(views.len() == n);
    bindings_come_from_imports(syntax, source, false, n, local);
    assert(binding_views(m.imports@) == syntax.bindings(source, false, n));
    assert(binding_views(m.imports@).dom().contains(local) == m.imports@.dom().contains(local));
    assert forall|e: int|
        0 <= e < views.len() && (#[trigger] views[e]).1 == local && !views[e].3 && (forall|f: int|
            e < f < views.len() && (#[trigger] views[f]).1 == local ==> views[f].3) implies
        m.imports@[local].source@ == views[e].0 && takes(m.imports@[local].imported@, views[e].2) by {
        assert(syntax.binds(e, false));
        assert(syntax.bindings(source, false, n)[local] == syntax.binding_at(source, e));
        assert(binding_views(m.imports@)[local] == m.imports@[local]@);
    }
    if m.imports@.dom().contains(local) {
        let e = choose|e: int|
            0 <= e < n && #[trigger] import_views(syntax.imports@)[e].1 == local && syntax.binds(
                e,
                false,
            );
        assert(views[e].1 == local);
    }
    if exists|e: int| 0 <= e < views.len() && (#[trigger] views[e]).1 == local && !views[e].3 {
        let e = choose|e: int| 0 <= e < views.len() && (#[trigger] views[e]).1 == local && !views[e].3;
        assert(syntax.binds(e, false));
    }
}

/// An import of a type binds its local name for types; the last one of a name counts, unless a
/// value import of the same name follows.
pub proof fn type_imports_bind_their_names(
    path: Seq<Text>,
    source: Text,
    m: ParsedModule,
    e: int,
)
    requires
        parsed(path, source, Ok(m)),
        0 <= e < tree_imports(shown(path), source).len(),
        tree_imports(shown(path), source)[e].3,
        forall|f: int|
            e < f < tree_imports(shown(path), source).len() ==> (#[trigger] tree_imports(
                shown(path),
                source,
            )[f]).1 != tree_imports(shown(path), source)[e].1,
    ensures
        ({
            let entry = tree_imports(shown(path), source)[e];
            &&& m.type_imports@.dom().contains(entry.1)
            &&& m.type_imports@[entry.1].source@ == entry.0
            &&& takes(m.type_imports@[entry.1].imported@, entry.2)
        }),
{
    let syntax = modules_have_syntax(path, source, m);
    let views = tree_imports(shown(path), source);
    let n = syntax.imports@.len() as int;
    let local = views[e].1;
    assert(import_views(syntax.imports@) == views);
    bindings_come_from_imports(syntax, source, true, n, local);
    assert(binding_views(m.type_imports@) == syntax.bindings(source, true, n));
    assert(binding_views(m.type_imports@).dom().contains(local) == m.type_imports@.dom().contains(local));
    assert(syntax.binds(e, true));
    assert(import_views(syntax.imports@)[e].1 == local);
    assert(syntax.bindings(source, true, n)[local] == syntax.binding_at(source, e));
    assert(binding_views(m.type_imports@)[local] == m.type_imports@[local]@);
}

/// The name that an export has outside, in the words of the syntax tree.
pub open spec fn is_exported_as(exported: Option<Option<Text>>, name: Text) -> bool {
    exported == Some(Some(name)) || (exported == Some(None::<Text>) && name == "default"@)
}

proof fn exports_come_from_entries(syntax: ModuleSyntax, typed: bool, n: int, name: Text)
    requires
        0 <= n <= syntax.local_exports@.len(),
    ensures
        syntax.own_exports(typed, n).dom().contains(name) == (exists|e: int|
            0 <= e < n && #[trigger] exports_at(syntax, typed, e, name)),
        forall|e: int|
            0 <= e < n && #[trigger] exports_at(syntax, typed, e, name) && (forall|f: int|
                e < f < n ==> !#[trigger] exports_at(syntax, typed, f, name)) ==> syntax.own_exports(
                typed,
                n,
            )[name] == local_export_views(syntax.local_exports@)[e].1->0,
    decreases n,
{
    if n > 0 {
        exports_come_from_entries(syntax, typed, n - 1, name);
        let entry = local_export_views(syntax.local_exports@)[n - 1];
        if exports_at(syntax, typed, n - 1, name) {
            assert(exports_at(syntax, typed, n - 1, name));
        } else {
            assert(syntax.own_exports(typed, n).dom().contains(name) == syntax.own_exports(
                typed,
                n - 1,
            ).dom().contains(name));
        }
        assert forall|e: int|
            0 <= e < n && #[trigger] exports_at(syntax, typed, e, name) && (forall|f: int|
                e < f < n ==> !#[trigger] exports_at(syntax, typed, f, name)) implies syntax.own_exports(
            typed,
            n,
        )[name] == local_export_views(syntax.local_exports@)[e].1->0 by {
            if e < n - 1 {
                assert(!exports_at(syntax, typed, n - 1, name));
            }
        }
    }
}

spec fn exports_at(syntax: ModuleSyntax, typed: bool, e: int, name: Text) -> bool {
    let entry = local_export_views(syntax.local_exports@)[e];
    is_exported_as(entry.0, name) && entry.1 is Some && (typed || !entry.2)
}

/// Entry `e` of the syntax tree exports a local symbol under `name`; of a type only where types
/// are asked for.
pub open spec fn is_local_export(path: Text, source: Text, typed: bool, e: int, name: Text) -> bool {
    let entry = tree_local_exports(path, source)[e];
    is_exported_as(entry.0, name) && entry.1 is Some && (typed || !entry.2)
}

/// A module exports a local symbol under the name that the export has outside; a default export
/// is the export `default`. Of several under one name the last counts, and nothing else is
/// exported. What is exported as a type counts for types alone.
pub proof fn exports_have_their_names(
    path: Seq<Text>,
    source: Text,
    m: ParsedModule,
    typed: bool,
    name: Text,
)
    requires
        parsed(path, source, Ok(m)),
    ensures
        ({
            let exports = if typed {
                m.type_local_exports@
            } else {
                m.local_exports@
            };
            let views = tree_local_exports(shown(path), source);
            &&& exports.dom().contains(name) == (exists|e: int|
                0 <= e < views.len() && #[trigger] is_local_export(shown(path), source, typed, e, name))
            &&& forall|e: int|
                0 <= e < views.len() && #[trigger] is_local_export(shown(path), source, typed, e, name)
                    && (forall|f: int|
                    e < f < views.len() ==> !#[trigger] is_local_export(
                        shown(path),
                        source,
                        typed,
                        f,
                        name,
                    )) ==> exports[name]@ == views[e].1->0
        }),
{
    let syntax = modules_have_syntax(path, source, m);
    let views = tree_local_exports(shown(path), source);
    let n = syntax.local_exports@.len() as int;
    assert(local_export_views(syntax.local_exports@) == views);
    exports_come_from_entries(syntax, typed, n, name);
    let exports = if typed {
        m.type_local_exports@
    } else {
        m.local_exports@
    };
    let texts = crate::parser::model::text_values(exports);
    assert(texts == syntax.own_exports(typed, n));
    assert(texts.dom().contains(name) == exports.dom().contains(name));
    assert forall|e: int| 0 <= e < n implies #[trigger] exports_at(syntax, typed, e, name)
        == is_local_export(shown(path), source, typed, e, name) by {}
    if exports.dom().contains(name) {
        let e = choose|e: int| 0 <= e < n && #[trigger] exports_at(syntax, typed, e, name);
        assert(is_local_export(shown(path), source, typed, e, name));
    }
    if exists|e: int|
        0 <= e < views.len() && #[trigger] is_local_export(shown(path), source, typed, e, name) {
        let e = choose|e: int|
            0 <= e < views.len() && #[trigger] is_local_export(shown(path), source, typed, e, name);
        assert(exports_at(syntax, typed, e, name));
    }
    assert forall|e: int|
        0 <= e < views.len() && #[trigger] is_local_export(shown(path), source, typed, e, name) && (
        forall|f: int|
            e < f < views.len() ==> !#[trigger] is_local_export(shown(path), source, typed, f, name))
        implies exports[name]@ == views[e].1->0 by {
        assert(exports_at(syntax, typed, e, name));
        assert forall|f: int| e < f < n implies !#[trigger] exports_at(syntax, typed, f, name) by {
            assert(!is_local_export(shown(path), source, typed, f, name));
        }
        assert(texts.dom().contains(name));
    }
}

/// An import of the default export asks for the very name under which a module that declares a
/// default export lists it.
pub proof fn default_imports_meet_default_exports(
    importer: Seq<Text>,
    text: Text,
    m: ParsedModule,
    e: int,
    exporter: Seq<Text>,
    other: Text,
    q: ParsedModule,
    f: int,
)
    requires
        parsed(importer, text, Ok(m)),
        parsed(exporter, other, Ok(q)),
        0 <= e < tree_imports(shown(importer), text).len(),
        tree_imports(shown(importer), text)[e].2 == Some(None::<Text>),
        !tree_imports(shown(importer), text)[e].3,
        forall|i: int|
            e < i < tree_imports(shown(importer), text).len() ==> (#[trigger] tree_imports(
                shown(importer),
                text,
            )[i]).1 != tree_imports(shown(importer), text)[e].1,
        0 <= f < tree_local_exports(shown(exporter), other).len(),
        tree_local_exports(shown(exporter), other)[f].0 == Some(None::<Text>),
        tree_local_exports(shown(exporter), other)[f].1 is Some,
        !tree_local_exports(shown(exporter), other)[f].2,
    ensures
        ({
            let local = tree_imports(shown(importer), text)[e].1;
            &&& m.imports@.dom().contains(local)
            &&& m.imports@[local].imported@ is Named
            &&& q.local_exports@.dom().contains(m.imports@[local].imported@->Named_0)
        }),
{
    let local = tree_imports(shown(importer), text)[e].1;
    imports_bind_their_names(importer, text, m, local);
    assert(tree_imports(shown(importer), text)[e].1 == local);
    exports_have_their_names(exporter, other, q, false, "default"@);
    assert(is_local_export(shown(exporter), other, false, f, "default"@));
}

proof fn passed_on_comes_from_entries(syntax: ModuleSyntax, typed: bool, n: int, r: ReExportModel)
    requires
        0 <= n <= syntax.re_exports@.len(),
    ensures
        syntax.passed_on(typed, n).contains(r) == (exists|e: int|
            0 <= e < n && #[trigger] passes_on_at(
                re_export_views(syntax.re_exports@)[e],
                typed,
                r,
            )),
    decreases n,
{
    if n > 0 {
        passed_on_comes_from_entries(syntax, typed, n - 1, r);
        let views = re_export_views(syntax.re_exports@);
        let entry = views[n - 1];
        let before = syntax.passed_on(typed, n - 1);
        let all = syntax.passed_on(typed, n);
        assert(all.contains(r) == (before.contains(r) || passes_on_at(entry, typed, r))) by {
            if all.len() > before.len() {
                assert(all.last() == all[before.len() as int]);
                if before.contains(r) {
                    let k = choose|k: int| 0 <= k < before.len() && before[k] == r;
                    assert(all[k] == r);
                }
                if all.contains(r) {
                    let k = choose|k: int| 0 <= k < all.len() && all[k] == r;
                    if k < before.len() {
                        assert(before[k] == r);
                    }
                }
            }
        }
        if passes_on_at(entry, typed, r) {
            assert(passes_on_at(views[n - 1], typed, r));
        }
        if exists|e: int| 0 <= e < n && #[trigger] passes_on_at(views[e], typed, r) {
            let e = choose|e: int| 0 <= e < n && #[trigger] passes_on_at(views[e], typed, r);
            if e < n - 1 {
                assert(passes_on_at(views[e], typed, r));
            }
        }
    }
}

/// An entry of the syntax tree passes an export of another module on: one name, or the module as
/// a whole under a name.
pub open spec fn passes_on_at(
    entry: (Option<Text>, Option<Option<Text>>, (bool, Option<Text>), bool),
    typed: bool,
    r: ReExportModel,
) -> bool {
    &&& typed || !entry.3
    &&& entry.0 == Some(r.source)
    &&& is_exported_as(entry.1, r.exported)
    &&& match entry.2.1 {
        Some(name) => r.imported == ImportedModel::Named(name),
        None => entry.2.0 && r.imported == ImportedModel::Namespace(None),
    }
}

/// The exports that a module takes from others are those of the syntax tree: from the module that
/// is named there, under the name that they have outside, and what they are called there. Those
/// of types alone count for types.
pub proof fn re_exports_pass_names_on(
    path: Seq<Text>,
    source: Text,
    m: ParsedModule,
    typed: bool,
    r: ReExportModel,
)
    requires
        parsed(path, source, Ok(m)),
    ensures
        re_export_models(if typed {
            m.type_re_exports@
        } else {
            m.re_exports@
        }).contains(r) == (exists|e: int|
            0 <= e < tree_re_exports(shown(path), source).len() && #[trigger] passes_on_at(
                tree_re_exports(shown(path), source)[e],
                typed,
                r,
            )),
{
    let syntax = modules_have_syntax(path, source, m);
    assert(re_export_views(syntax.re_exports@) == tree_re_exports(shown(path), source));
    passed_on_comes_from_entries(syntax, typed, syntax.re_exports@.len() as int, r);
}

proof fn passed_whole_comes_from_entries(syntax: ModuleSyntax, typed: bool, n: int, module: Text)
    requires
        0 <= n <= syntax.stars@.len(),
    ensures
        syntax.passed_whole(typed, n).contains(module) == (exists|e: int|
            0 <= e < n && (#[trigger] star_views(syntax.stars@)[e]).0 == Some(module) && (typed
                || !star_views(syntax.stars@)[e].1)),
    decreases n,
{
    if n > 0 {
        passed_whole_comes_from_entries(syntax, typed, n - 1, module);
        let views = star_views(syntax.stars@);
        let entry = views[n - 1];
        let before = syntax.passed_whole(typed, n - 1);
        let all = syntax.passed_whole(typed, n);
        let adds = entry.0 == Some(module) && (typed || !entry.1);
        assert(all.contains(module) == (before.contains(module) || adds)) by {
            if all.len() > before.len() {
                assert(all.last() == all[before.len() as int]);
                if before.contains(module) {
                    let k = choose|k: int| 0 <= k < before.len() && before[k] == module;
                    assert(all[k] == module);
                }
                if all.contains(module) {
                    let k = choose|k: int| 0 <= k < all.len() && all[k] == module;
                    if k < before.len() {
                        assert(before[k] == module);
                    }
                }
            }
        }
        if adds {
            assert(views[n - 1].0 == Some(module));
        }
        if exists|e: int|
            0 <= e < n && (#[trigger] views[e]).0 == Some(module) && (typed || !views[e].1) {
            let e = choose|e: int|
                0 <= e < n && (#[trigger] views[e]).0 == Some(module) && (typed || !views[e].1);
            if e < n - 1 {
                assert(views[e].0 == Some(module));
            }
        }
    }
}

/// A module passes on whole exactly the modules that the syntax tree says; of types alone only
/// where types are asked for.
pub proof fn stars_pass_modules_on(
    path: Seq<Text>,
    source: Text,
    m: ParsedModule,
    typed: bool,
    module: Text,
)
    requires
        parsed(path, source, Ok(m)),
    ensures
        texts(if typed {
            m.type_star_exports@
        } else {
            m.star_exports@
        }).contains(module) == (exists|e: int|
            0 <= e < tree_stars(shown(path), source).len() && (#[trigger] tree_stars(
                shown(path),
                source,
            )[e]).0 == Some(module) && (typed || !tree_stars(shown(path), source)[e].1)),
{
    let syntax = modules_have_syntax(path, source, m);
    assert(star_views(syntax.stars@) == tree_stars(shown(path), source));
    passed_whole_comes_from_entries(syntax, typed, syntax.stars@.len() as int, module);
}

/// Symbol `i` of the syntax tree is declared under `name` in the scope of the whole module.
pub open spec fn is_declared(path: Text, source: Text, i: int, name: Text) -> bool {
    &&& 0 <= i < tree_symbols(path, source).len()
    &&& tree_symbols(path, source)[i].0 == name
    &&& tree_symbols(path, source)[i].1.0 == tree_root(path, source)
}

/// It is a value, and no import of a type.
pub open spec fn is_live(path: Text, source: Text, i: int) -> bool {
    tree_symbols(path, source)[i].2.0 && !tree_symbols(path, source)[i].2.1
}

/// Reference `k` of the syntax tree is to symbol `i`, only as a type or not.
pub open spec fn is_reference(path: Text, source: Text, k: int, i: int, typed: bool) -> bool {
    &&& 0 <= k < tree_references(path, source).len()
    &&& tree_references(path, source)[k].0 == i
    &&& tree_references(path, source)[k].3 == typed
}

/// The declaration of symbol `c` covers the reference `k`.
pub open spec fn is_around(path: Text, source: Text, c: int, k: int) -> bool {
    &&& tree_symbols(path, source)[c].1.1 <= tree_references(path, source)[k].2.0
    &&& tree_references(path, source)[k].2.1 <= tree_symbols(path, source)[c].1.2
}

proof fn facts_are_those_of_the_tree(syntax: ModuleSyntax, path: Text, source: Text)
    requires
        syntax.is_of(path, source),
    ensures
        syntax.symbols@.len() == tree_symbols(path, source).len(),
        syntax.references@.len() == tree_references(path, source).len(),
        forall|i: int|
            0 <= i < syntax.symbols@.len() ==> {
                let s = #[trigger] syntax.symbols@[i];
                tree_symbols(path, source)[i] == (
                    s.name@,
                    (s.scope, s.start, s.end),
                    (s.is_value, s.is_type_import),
                )
            },
        forall|k: int|
            0 <= k < syntax.references@.len() ==> {
                let r = #[trigger] syntax.references@[k];
                tree_references(path, source)[k] == (r.symbol, r.node, (r.start, r.end), r.type_only)
            },
        forall|i: int, name: Text| #[trigger]
            is_declared(path, source, i, name) == (syntax.is_top(i) && syntax.symbols@[i].name@ == name),
        forall|i: int|
            0 <= i < syntax.symbols@.len() ==> #[trigger] is_live(path, source, i) == syntax.is_runtime(
                i,
            ),
{
    let f = |s: SymbolFact| (s.name@, (s.scope, s.start, s.end), (s.is_value, s.is_type_import));
    let g = |r: ReferenceFact| (r.symbol, r.node, (r.start, r.end), r.type_only);
    assert(syntax.symbols@.map_values(f) == tree_symbols(path, source));
    assert(syntax.references@.map_values(g) == tree_references(path, source));
    assert forall|i: int| 0 <= i < syntax.symbols@.len() implies {
        let s = #[trigger] syntax.symbols@[i];
        tree_symbols(path, source)[i] == (
            s.name@,
            (s.scope, s.start, s.end),
            (s.is_value, s.is_type_import),
        )
    } by {
        assert(syntax.symbols@.map_values(f)[i] == f(syntax.symbols@[i]));
    }
    assert forall|k: int| 0 <= k < syntax.references@.len() implies {
        let r = #[trigger] syntax.references@[k];
        tree_references(path, source)[k] == (r.symbol, r.node, (r.start, r.end), r.type_only)
    } by {
        assert(syntax.references@.map_values(g)[k] == g(syntax.references@[k]));
    }
}

/// The symbols of a module are those that are declared for the whole module, and the one that
/// stands for loading it, which always exists at run time.
pub proof fn modules_hold_their_declarations(path: Seq<Text>, source: Text, m: ParsedModule, name: Text)
    requires
        parsed(path, source, Ok(m)),
    ensures
        m.symbols@.dom().contains(name) == (name == MODULE_INIT@ || exists|i: int| #[trigger]
            is_declared(shown(path), source, i, name)),
        m.symbols@[MODULE_INIT@].runtime,
{
    let syntax = modules_have_syntax(path, source, m);
    facts_are_those_of_the_tree(syntax, shown(path), source);
    let p = syntax.is_top_named(name);
    first_from_fits(p, 0, syntax.symbols@.len() as int);
    let all = crate::parser::model::symbol_infos(m.symbols@);
    assert(all == syntax.all_symbols(source));
    assert(all.dom().contains(name) == m.symbols@.dom().contains(name));
    if let Some(i) = syntax.top_named(name) {
        assert(is_declared(shown(path), source, i, name));
    }
    if exists|i: int| #[trigger] is_declared(shown(path), source, i, name) {
        let i = choose|i: int| #[trigger] is_declared(shown(path), source, i, name);
        assert(p(i));
    }
    assert(all.dom().contains(MODULE_INIT@));
    assert(all[MODULE_INIT@] == m.symbols@[MODULE_INIT@]@);
}

/// What is known of a symbol of a module.
proof fn symbols_are_described(
    syntax: ModuleSyntax,
    path: Seq<Text>,
    source: Text,
    m: ParsedModule,
    name: Text,
)
    requires
        syntax.is_of(shown(path), source),
        m@ == syntax.module(source),
        name != MODULE_INIT@,
        m.symbols@.dom().contains(name),
    ensures
        m.symbols@[name]@ == syntax.symbol_model(source, name),
        m.registries@.dom().contains(name) == syntax.registry_models().dom().contains(name),
{
    let all = crate::parser::model::symbol_infos(m.symbols@);
    assert(all == syntax.all_symbols(source));
    assert(all.dom().contains(name));
    assert(all[name] == m.symbols@[name]@);
    let registries = crate::parser::model::registry_infos(m.registries@);
    assert(registries == syntax.all_registries(source));
    assert(registries.dom().contains(name) == m.registries@.dom().contains(name));
}

/// A symbol that is no registry depends at run time on exactly the other values of the module
/// that are mentioned, not only as a type, inside a declaration of it that exists at run time.
pub proof fn declarations_depend_on_what_they_mention(
    path: Seq<Text>,
    source: Text,
    m: ParsedModule,
    name: Text,
    used: Text,
)
    requires
        parsed(path, source, Ok(m)),
        m.symbols@.dom().contains(name),
        name != MODULE_INIT@,
        !m.registries@.dom().contains(name),
    ensures
        m.symbols@[name].dependencies@.contains(used) == (used != name && exists|k: int, i: int, c: int|
            #[trigger] is_reference(shown(path), source, k, i, false) && is_declared(
                shown(path),
                source,
                i,
                used,
            ) && is_live(shown(path), source, i) && is_declared(shown(path), source, c, name)
                && is_live(shown(path), source, c) && #[trigger] is_around(shown(path), source, c, k)),
{
    let syntax = modules_have_syntax(path, source, m);
    let t = shown(path);
    facts_are_those_of_the_tree(syntax, t, source);
    symbols_are_described(syntax, path, source, m, name);
    let n = syntax.references@.len() as int;
    let p = syntax.uses_of(name, false, used);
    first_from_fits(p, 0, n);
    assert(m.symbols@[name].dependencies@ == m.symbols@[name]@.dependencies);
    if let Some(k) = syntax.first_use(name, false, used, n) {
        assert(p(k));
        let i = syntax.references@[k].symbol as int;
        let c = choose|c: int| #[trigger]
            syntax.is_owner(c, name, true) && syntax.declares_over(
                c,
                syntax.references@[k].start,
                syntax.references@[k].end,
            );
        assert(is_reference(t, source, k, i, false));
        assert(is_declared(t, source, i, used) && is_live(t, source, i));
        assert(is_declared(t, source, c, name) && is_live(t, source, c));
        assert(is_around(t, source, c, k));
    }
    if used != name && exists|k: int, i: int, c: int| #[trigger]
        is_reference(t, source, k, i, false) && is_declared(t, source, i, used) && is_live(t, source, i)
            && is_declared(t, source, c, name) && is_live(t, source, c) && #[trigger] is_around(
            t,
            source,
            c,
            k,
        ) {
        let (k, i, c) = choose|k: int, i: int, c: int| #[trigger]
            is_reference(t, source, k, i, false) && is_declared(t, source, i, used) && is_live(
                t,
                source,
                i,
            ) && is_declared(t, source, c, name) && is_live(t, source, c) && #[trigger] is_around(
                t,
                source,
                c,
                k,
            );
        assert(syntax.references@[k].symbol == i);
        assert(syntax.is_owner(c, name, true));
        assert(syntax.is_use(name, false, k));
        assert(p(k));
    }
}

/// A symbol depends for types on exactly the other symbols of the module that are mentioned as
/// types inside a declaration of it.
pub proof fn declarations_depend_on_types_they_mention(
    path: Seq<Text>,
    source: Text,
    m: ParsedModule,
    name: Text,
    used: Text,
)
    requires
        parsed(path, source, Ok(m)),
        m.symbols@.dom().contains(name),
        name != MODULE_INIT@,
    ensures
        m.symbols@[name].type_dependencies@.contains(used) == (used != name
            && exists|k: int, i: int, c: int| #[trigger]
            is_reference(shown(path), source, k, i, true) && is_declared(shown(path), source, i, used)
                && is_declared(shown(path), source, c, name) && #[trigger] is_around(
                shown(path),
                source,
                c,
                k,
            )),
{
    let syntax = modules_have_syntax(path, source, m);
    let t = shown(path);
    facts_are_those_of_the_tree(syntax, t, source);
    symbols_are_described(syntax, path, source, m, name);
    let n = syntax.references@.len() as int;
    let p = syntax.uses_of(name, true, used);
    first_from_fits(p, 0, n);
    assert(m.symbols@[name].type_dependencies@ == m.symbols@[name]@.type_dependencies);
    if let Some(k) = syntax.first_use(name, true, used, n) {
        assert(p(k));
        let i = syntax.references@[k].symbol as int;
        let c = choose|c: int| #[trigger]
            syntax.is_owner(c, name, false) && syntax.declares_over(
                c,
                syntax.references@[k].start,
                syntax.references@[k].end,
            );
        assert(is_reference(t, source, k, i, true));
        assert(is_declared(t, source, i, used));
        assert(is_declared(t, source, c, name));
        assert(is_around(t, source, c, k));
    }
    if used != name && exists|k: int, i: int, c: int| #[trigger]
        is_reference(t, source, k, i, true) && is_declared(t, source, i, used) && is_declared(
            t,
            source,
            c,
            name,
        ) && #[trigger] is_around(t, source, c, k) {
        let (k, i, c) = choose|k: int, i: int, c: int| #[trigger]
            is_reference(t, source, k, i, true) && is_declared(t, source, i, used) && is_declared(
                t,
                source,
                c,
                name,
            ) && #[trigger] is_around(t, source, c, k);
        assert(syntax.references@[k].symbol == i);
        assert(syntax.is_owner(c, name, false));
        assert(syntax.is_use(name, true, k));
        assert(p(k));
    }
}

/// The text that a change of a symbol is told by is that of its last declaration, and the symbol
/// exists at run time where that one does.
pub proof fn declarations_are_told_by_their_text(
    path: Seq<Text>,
    source: Text,
    m: ParsedModule,
    name: Text,
    c: int,
)
    requires
        parsed(path, source, Ok(m)),
        name != MODULE_INIT@,
        is_declared(shown(path), source, c, name),
        forall|d: int| c < d ==> !#[trigger] is_declared(shown(path), source, d, name),
    ensures
        m.symbols@.dom().contains(name),
        m.symbols@[name].runtime == is_live(shown(path), source, c),
        !m.registries@.dom().contains(name) ==> m.symbols@[name].fingerprint@ == text_at(
            source,
            tree_symbols(shown(path), source)[c].1.1 as int,
            tree_symbols(shown(path), source)[c].1.2 as int,
        ),
{
    let syntax = modules_have_syntax(path, source, m);
    facts_are_those_of_the_tree(syntax, shown(path), source);
    modules_hold_their_declarations(path, source, m, name);
    symbols_are_described(syntax, path, source, m, name);
    let p = syntax.is_top_named(name);
    last_before_fits(p, syntax.symbols@.len() as int);
    assert(p(c));
    let d = syntax.last_named(name)->0;
    assert(is_declared(shown(path), source, d, name));
    assert(d == c);
}

} // verus!
