//! What holds of what every module loads.
use vstd::prelude::*;

use crate::collections::first_from_fits;
use crate::parser::model::{ImportedModel, LoadModel, Text};
use crate::parser::start::is_quoted;
use crate::parser::syntax::{
    import_views, re_export_views, request_views, star_views, ModuleSyntax,
};
use crate::parser::MODULE_INIT;
use crate::text::byte_slice;

verus! {

/// Symbol `i` is declared under `name` in the scope of the whole module.
pub open spec fn is_top_symbol(s: ModuleSyntax, i: int, name: Text) -> bool {
    &&& 0 <= i < s.symbols@.len()
    &&& s.symbols@[i].scope == s.root_scope
    &&& s.symbols@[i].name@ == name
}

/// Reference `k` is to a symbol of the module with this name, only as a type or not.
pub open spec fn is_reference_to(s: ModuleSyntax, k: int, name: Text, typed: bool) -> bool {
    &&& 0 <= k < s.references@.len()
    &&& is_top_symbol(s, s.references@[k].symbol as int, name)
    &&& s.references@[k].type_only == typed
}

/// Import `e` is of a value under the local name `local`.
pub open spec fn is_value_import(s: ModuleSyntax, e: int, local: Text) -> bool {
    &&& 0 <= e < s.imports@.len()
    &&& import_views(s.imports@)[e].1 == local
    &&& !import_views(s.imports@)[e].3
}

proof fn references_are_mentions(s: ModuleSyntax, name: Text, typed: bool)
    ensures
        s.is_referenced(name, typed) == exists|k: int| #[trigger] is_reference_to(s, k, name, typed),
{
    if s.is_referenced(name, typed) {
        let i = choose|i: int| #[trigger] s.is_owner(i, name, false) && s.is_mentioned(i, typed);
        let k = choose|k: int| #[trigger] s.refers(k, i) && s.references@[k].type_only == typed;
        assert(is_reference_to(s, k, name, typed));
    }
    if exists|k: int| #[trigger] is_reference_to(s, k, name, typed) {
        let k = choose|k: int| #[trigger] is_reference_to(s, k, name, typed);
        let i = s.references@[k].symbol as int;
        assert(s.refers(k, i));
        assert(s.is_owner(i, name, false));
        assert(s.is_mentioned(i, typed));
    }
}

/// Import `e` loads the module `request` when the importing module is loaded: it is of a value
/// that is used as one, or not used at all.
pub open spec fn import_loads(s: ModuleSyntax, e: int, request: Text) -> bool {
    let entry = import_views(s.imports@)[e];
    &&& is_value_import(s, e, entry.1)
    &&& entry.0 == request
    &&& {
        ||| exists|k: int| #[trigger] is_reference_to(s, k, entry.1, false)
        ||| forall|k: int| !#[trigger] is_reference_to(s, k, entry.1, true)
    }
}

/// Re-export `e` of a value is from `request`.
pub open spec fn re_export_loads(s: ModuleSyntax, e: int, request: Text) -> bool {
    &&& 0 <= e < s.re_exports@.len()
    &&& re_export_views(s.re_exports@)[e].0 == Some(request)
    &&& !re_export_views(s.re_exports@)[e].3
}

/// Entry `e` passes the values of `request` on whole.
pub open spec fn star_loads(s: ModuleSyntax, e: int, request: Text) -> bool {
    &&& 0 <= e < s.stars@.len()
    &&& star_views(s.stars@)[e].0 == Some(request)
    &&& !star_views(s.stars@)[e].1
}

/// Statement `e` imports `request` for its effects: it is an import, not of types, and binds
/// nothing.
pub open spec fn effect_loads(s: ModuleSyntax, e: int, request: Text) -> bool {
    let entry = request_views(s.requests@)[e];
    &&& 0 <= e < s.requests@.len()
    &&& entry.0 == request
    &&& entry.1.0
    &&& !entry.1.1
    &&& forall|i: int| 0 <= i < s.imports@.len() ==> (#[trigger] s.imports@[i]).4 != entry.2
}

/// A module asks for the modules that its imports, re-exports and statements load, and for no
/// others. An import that is only used as a type loads nothing.
pub proof fn modules_ask_for_what_they_load(s: ModuleSyntax, source: Text, request: Text)
    ensures
        s.module(source).module_requests.contains(request) <==> {
            ||| exists|e: int| #[trigger] import_loads(s, e, request)
            ||| exists|e: int| #[trigger] re_export_loads(s, e, request)
            ||| exists|e: int| #[trigger] star_loads(s, e, request)
            ||| exists|e: int| #[trigger] effect_loads(s, e, request)
        },
{
    assert forall|e: int| s.import_asks(e, request) == #[trigger] import_loads(s, e, request) by {
        let local = import_views(s.imports@)[e].1;
        references_are_mentions(s, local, false);
        references_are_mentions(s, local, true);
    }
    assert forall|e: int| s.re_export_asks(e, request) == #[trigger] re_export_loads(s, e, request) by {}
    assert forall|e: int| s.star_asks(e, request) == #[trigger] star_loads(s, e, request) by {}
    assert forall|e: int| s.effect_asks(e, request) == #[trigger] effect_loads(s, e, request) by {}
    if exists|e: int| #[trigger] s.import_asks(e, request) {
        let e = choose|e: int| #[trigger] s.import_asks(e, request);
        assert(import_loads(s, e, request));
    }
    if exists|e: int| #[trigger] s.re_export_asks(e, request) {
        let e = choose|e: int| #[trigger] s.re_export_asks(e, request);
        assert(re_export_loads(s, e, request));
    }
    if exists|e: int| #[trigger] s.star_asks(e, request) {
        let e = choose|e: int| #[trigger] s.star_asks(e, request);
        assert(star_loads(s, e, request));
    }
    if exists|e: int| #[trigger] s.effect_asks(e, request) {
        let e = choose|e: int| #[trigger] s.effect_asks(e, request);
        assert(effect_loads(s, e, request));
    }
    if exists|e: int| #[trigger] import_loads(s, e, request) {
        let e = choose|e: int| #[trigger] import_loads(s, e, request);
        assert(s.import_asks(e, request));
    }
    if exists|e: int| #[trigger] re_export_loads(s, e, request) {
        let e = choose|e: int| #[trigger] re_export_loads(s, e, request);
        assert(s.re_export_asks(e, request));
    }
    if exists|e: int| #[trigger] star_loads(s, e, request) {
        let e = choose|e: int| #[trigger] star_loads(s, e, request);
        assert(s.star_asks(e, request));
    }
    if exists|e: int| #[trigger] effect_loads(s, e, request) {
        let e = choose|e: int| #[trigger] effect_loads(s, e, request);
        assert(s.effect_asks(e, request));
    }
}

/// Statement `j` holds the bytes from `start` to `end` and the declaration of symbol `c` of the
/// module.
pub open spec fn is_declaring(s: ModuleSyntax, j: int, c: int, start: usize, end: usize) -> bool {
    &&& 0 <= j < s.statements@.len()
    &&& s.statements@[j].0 <= start
    &&& end <= s.statements@[j].1
    &&& 0 <= c < s.symbols@.len()
    &&& s.symbols@[c].scope == s.root_scope
    &&& s.statements@[j].0 <= s.symbols@[c].start
    &&& s.symbols@[c].end <= s.statements@[j].1
}

/// Reference `k` uses a value under this name when the module is loaded: it stands in no
/// statement that declares something, and in no list of exports.
pub open spec fn is_loading_use(s: ModuleSyntax, k: int, name: Text) -> bool {
    let r = s.references@[k];
    &&& is_reference_to(s, k, name, false)
    &&& s.symbols@[r.symbol as int].is_value
    &&& !s.symbols@[r.symbol as int].is_type_import
    &&& forall|j: int, c: int| !#[trigger] is_declaring(s, j, c, r.start, r.end)
    &&& !s.is_under(r.node as int, "ExportSpecifier"@, s.nodes@.len() as int)
}

/// Import `e` of a value is used nowhere.
pub open spec fn is_unused_import(s: ModuleSyntax, e: int, local: Text) -> bool {
    &&& is_value_import(s, e, local)
    &&& forall|k: int, typed: bool| !#[trigger] is_reference_to(s, k, local, typed)
}

proof fn declaring_is_in_declaration(s: ModuleSyntax, start: usize, end: usize)
    ensures
        s.in_declaration(start, end) == exists|j: int, c: int| #[trigger]
            is_declaring(s, j, c, start, end),
{
    if s.in_declaration(start, end) {
        let j = choose|j: int|
            0 <= j < s.statements@.len() && s.statements@[j].0 <= start && end <= s.statements@[j].1
                && #[trigger] s.declares(j);
        let c = choose|c: int| #[trigger]
            s.is_top(c) && s.statements@[j].0 <= s.symbols@[c].start && s.symbols@[c].end
                <= s.statements@[j].1;
        assert(is_declaring(s, j, c, start, end));
    }
    if exists|j: int, c: int| #[trigger] is_declaring(s, j, c, start, end) {
        let (j, c) = choose|j: int, c: int| #[trigger] is_declaring(s, j, c, start, end);
        assert(s.is_top(c));
        assert(s.declares(j));
    }
}

proof fn loading_uses_start(s: ModuleSyntax, i: int, name: Text)
    requires
        0 <= i < s.symbols@.len(),
        s.symbols@[i].name@ == name,
    ensures
        s.starts_with(i) == exists|k: int| #[trigger]
            is_loading_use(s, k, name) && s.references@[k].symbol == i,
{
    let p = s.start_uses(i);
    let n = s.references@.len() as int;
    first_from_fits(p, 0, n);
    if s.starts_with(i) {
        let k = s.first_start_use(i)->0;
        assert(p(k));
        declaring_is_in_declaration(s, s.references@[k].start, s.references@[k].end);
        assert(is_loading_use(s, k, name));
    }
    if exists|k: int| #[trigger] is_loading_use(s, k, name) && s.references@[k].symbol == i {
        let k = choose|k: int| #[trigger] is_loading_use(s, k, name) && s.references@[k].symbol == i;
        declaring_is_in_declaration(s, s.references@[k].start, s.references@[k].end);
        assert(p(k));
    }
}

proof fn start_places_are_used(s: ModuleSyntax, source: Text, n: int, name: Text)
    requires
        0 <= n <= s.symbols@.len(),
    ensures
        s.start_places(source, n).dom().contains(name) == exists|k: int| #[trigger]
            is_loading_use(s, k, name) && s.references@[k].symbol < n,
    decreases n,
{
    if n > 0 {
        start_places_are_used(s, source, n - 1, name);
        let last = s.symbols@[n - 1].name@;
        loading_uses_start(s, n - 1, last);
        if s.start_places(source, n).dom().contains(name) {
            if last == name && s.starts_with(n - 1) {
                let k = choose|k: int| #[trigger]
                    is_loading_use(s, k, name) && s.references@[k].symbol == n - 1;
                assert(is_loading_use(s, k, name));
            } else {
                let k = choose|k: int| #[trigger]
                    is_loading_use(s, k, name) && s.references@[k].symbol < n - 1;
                assert(is_loading_use(s, k, name));
            }
        }
        if exists|k: int| #[trigger] is_loading_use(s, k, name) && s.references@[k].symbol < n {
            let k = choose|k: int| #[trigger]
                is_loading_use(s, k, name) && s.references@[k].symbol < n;
            if s.references@[k].symbol == n - 1 {
                assert(last == name);
            }
        }
    }
}

proof fn load_places_are_used(s: ModuleSyntax, source: Text, n: int, name: Text)
    requires
        0 <= n <= s.imports@.len(),
    ensures
        s.load_places(source, n).dom().contains(name) == ((exists|k: int| #[trigger]
            is_loading_use(s, k, name)) || exists|e: int| #[trigger]
            is_unused_import(s, e, name) && e < n),
    decreases n,
{
    if n <= 0 {
        start_places_are_used(s, source, s.symbols@.len() as int, name);
        if exists|k: int| #[trigger] is_loading_use(s, k, name) {
            let k = choose|k: int| #[trigger] is_loading_use(s, k, name);
            assert(s.references@[k].symbol < s.symbols@.len());
        }
    } else {
        load_places_are_used(s, source, n - 1, name);
        let local = import_views(s.imports@)[n - 1].1;
        references_are_mentions(s, local, false);
        references_are_mentions(s, local, true);
        assert(s.is_idle_import(n - 1) == is_unused_import(s, n - 1, local)) by {
            if is_unused_import(s, n - 1, local) {
                assert forall|k: int| !is_reference_to(s, k, local, false) && !is_reference_to(
                    s,
                    k,
                    local,
                    true,
                ) by {}
            }
            if s.is_idle_import(n - 1) {
                assert forall|k: int, typed: bool| !#[trigger] is_reference_to(s, k, local, typed) by {
                    if typed {
                        assert(!is_reference_to(s, k, local, true));
                    } else {
                        assert(!is_reference_to(s, k, local, false));
                    }
                }
            }
        }
        if exists|e: int| #[trigger] is_unused_import(s, e, name) && e < n {
            let e = choose|e: int| #[trigger] is_unused_import(s, e, name) && e < n;
            if e < n - 1 {
                assert(is_unused_import(s, e, name) && e < n - 1);
            }
        }
        if exists|e: int| #[trigger] is_unused_import(s, e, name) && e < n - 1 {
            let e = choose|e: int| #[trigger] is_unused_import(s, e, name) && e < n - 1;
            assert(is_unused_import(s, e, name) && e < n);
        }
        if s.is_idle_import(n - 1) && local == name {
            assert(is_unused_import(s, n - 1, name));
        }
    }
}

/// The initialisation of a module depends on the values that it uses outside declarations, on the
/// values that it imports and uses nowhere, and on nothing else. It exists at run time.
pub proof fn initialisations_depend_on_what_they_use(s: ModuleSyntax, source: Text, name: Text)
    ensures
        s.module(source).symbols.dom().contains(MODULE_INIT@),
        s.module(source).symbols[MODULE_INIT@].runtime,
        s.module(source).symbols[MODULE_INIT@].dependencies.contains(name) <==> {
            ||| exists|k: int| #[trigger] is_loading_use(s, k, name)
            ||| exists|e: int| #[trigger] is_unused_import(s, e, name)
        },
{
    load_places_are_used(s, source, s.imports@.len() as int, name);
    if exists|e: int| #[trigger] is_unused_import(s, e, name) {
        let e = choose|e: int| #[trigger] is_unused_import(s, e, name);
        assert(e < s.imports@.len());
    }
}

/// The declaration of the value `name` covers these bytes.
pub open spec fn is_in_value(s: ModuleSyntax, name: Text, start: usize, end: usize) -> bool {
    exists|c: int|
        {
            &&& #[trigger] is_top_symbol(s, c, name)
            &&& s.symbols@[c].is_value
            &&& !s.symbols@[c].is_type_import
            &&& s.symbols@[c].start <= start
            &&& end <= s.symbols@[c].end
        }
}

/// A load of `request` by the expression at these bytes: by the values whose declarations cover
/// it, or by the initialisation where there is none.
pub open spec fn is_load(
    s: ModuleSyntax,
    load: LoadModel,
    request: Text,
    start: usize,
    end: usize,
) -> bool {
    &&& load.source == request
    &&& forall|name: Text| #[trigger]
        load.consumers.contains(name) <==> {
            ||| is_in_value(s, name, start, end)
            ||| name == MODULE_INIT@ && forall|other: Text| !#[trigger]
                is_in_value(s, other, start, end)
        }
}

proof fn loads_have_their_consumers(s: ModuleSyntax, source: Text, request: Text, span: (usize, usize))
    ensures
        is_load(s, s.load_at(source, request, span), request, span.0, span.1),
{
    let around = s.declared_around(span.0, span.1);
    assert forall|name: Text| around.contains(name) == #[trigger] is_in_value(s, name, span.0, span.1) by {
        if around.contains(name) {
            let c = choose|c: int| #[trigger]
                s.is_owner(c, name, true) && s.declares_over(c, span.0, span.1);
            assert(is_top_symbol(s, c, name));
        }
        if is_in_value(s, name, span.0, span.1) {
            let c = choose|c: int|
                {
                    &&& #[trigger] is_top_symbol(s, c, name)
                    &&& s.symbols@[c].is_value
                    &&& !s.symbols@[c].is_type_import
                    &&& s.symbols@[c].start <= span.0
                    &&& span.1 <= s.symbols@[c].end
                };
            assert(s.is_owner(c, name, true) && s.declares_over(c, span.0, span.1));
        }
    }
    if around != Set::<Text>::empty() {
        assert(exists|other: Text| is_in_value(s, other, span.0, span.1)) by {
            if forall|other: Text| !is_in_value(s, other, span.0, span.1) {
                assert forall|name: Text| !around.contains(name) by {
                    assert(!is_in_value(s, name, span.0, span.1));
                }
                assert(around =~= Set::empty());
            }
        }
    }
}

/// A quoted request of a dynamic import: the text between the marks.
pub open spec fn is_quoted_request(text: Text, request: Text) -> bool {
    text == seq!['\''] + request + seq!['\''] || text == seq!['"'] + request + seq!['"']
}

proof fn quoted_requests_are_quoted(text: Text, request: Text)
    requires
        is_quoted_request(text, request),
    ensures
        is_quoted(text),
        text.subrange(1, text.len() - 1) == request,
{
    assert(text.subrange(1, text.len() - 1) =~= request);
}

proof fn dynamic_loads_hold(s: ModuleSyntax, source: Text, n: int, i: int, request: Text)
    requires
        0 <= i < n <= s.dynamic_imports@.len(),
        byte_slice(
            source,
            s.dynamic_imports@[i].0.0 as int,
            s.dynamic_imports@[i].0.1 as int,
        ) matches Some(text) && is_quoted_request(text, request),
    ensures
        exists|k: int|
            0 <= k < s.dynamic_loads(source, n).len() && is_load(
                s,
                #[trigger] s.dynamic_loads(source, n)[k],
                request,
                s.dynamic_imports@[i].1.0,
                s.dynamic_imports@[i].1.1,
            ),
    decreases n,
{
    let import = s.dynamic_imports@[i];
    let list = s.dynamic_loads(source, n);
    if i == n - 1 {
        let text = byte_slice(source, import.0.0 as int, import.0.1 as int)->0;
        quoted_requests_are_quoted(text, request);
        loads_have_their_consumers(s, source, request, import.1);
        assert(is_load(s, list[list.len() - 1], request, import.1.0, import.1.1));
    } else {
        dynamic_loads_hold(s, source, n - 1, i, request);
        let before = s.dynamic_loads(source, n - 1);
        let k = choose|k: int|
            0 <= k < before.len() && is_load(
                s,
                #[trigger] before[k],
                request,
                import.1.0,
                import.1.1,
            );
        assert(list[k] == before[k]);
    }
}

proof fn loads_go_on(s: ModuleSyntax, source: Text, n: int)
    requires
        0 <= n,
    ensures
        s.dynamic_loads(source, s.dynamic_imports@.len() as int).is_prefix_of(s.all_loads(source, n)),
    decreases n,
{
    if n > 0 {
        loads_go_on(s, source, n - 1);
    }
}

/// A dynamic import of a quoted request loads that module, by the values around it or by the
/// initialisation.
pub proof fn dynamic_imports_load_their_module(s: ModuleSyntax, source: Text, i: int, request: Text)
    requires
        0 <= i < s.dynamic_imports@.len(),
        byte_slice(
            source,
            s.dynamic_imports@[i].0.0 as int,
            s.dynamic_imports@[i].0.1 as int,
        ) matches Some(text) && is_quoted_request(text, request),
    ensures
        exists|k: int|
            0 <= k < s.module(source).runtime_loads.len() && is_load(
                s,
                #[trigger] s.module(source).runtime_loads[k],
                request,
                s.dynamic_imports@[i].1.0,
                s.dynamic_imports@[i].1.1,
            ),
{
    let n = s.dynamic_imports@.len() as int;
    let loads = s.module(source).runtime_loads;
    let first = s.dynamic_loads(source, n);
    let import = s.dynamic_imports@[i];
    dynamic_loads_hold(s, source, n, i, request);
    loads_go_on(s, source, s.nodes@.len() as int);
    let k = choose|k: int|
        0 <= k < first.len() && is_load(s, #[trigger] first[k], request, import.1.0, import.1.1);
    assert(loads.take(first.len() as int)[k] == first[k]);
    assert(loads[k] == first[k]);
}

/// A call that requires a module loads it, by the values around the call or by the
/// initialisation.
pub proof fn require_calls_load_their_module(s: ModuleSyntax, source: Text, id: int, request: Text)
    requires
        0 <= id < s.nodes@.len(),
        s.nodes@[id].kind@ == "CallExpression"@,
        s.nodes@[id].label matches Some(label) && label@ == request,
    ensures
        exists|k: int|
            0 <= k < s.module(source).runtime_loads.len() && is_load(
                s,
                #[trigger] s.module(source).runtime_loads[k],
                request,
                s.nodes@[id].start,
                s.nodes@[id].end,
            ),
{
    let n = s.nodes@.len() as int;
    let node = s.nodes@[id];
    calls_hold(s, source, n, id, request);
    let loads = s.all_loads(source, n);
    let k = choose|k: int|
        0 <= k < loads.len() && is_load(s, #[trigger] loads[k], request, node.start, node.end);
    assert(s.module(source).runtime_loads[k] == loads[k]);
}

proof fn calls_hold(s: ModuleSyntax, source: Text, n: int, id: int, request: Text)
    requires
        0 <= id < n <= s.nodes@.len(),
        s.nodes@[id].kind@ == "CallExpression"@,
        s.nodes@[id].label matches Some(label) && label@ == request,
    ensures
        exists|k: int|
            0 <= k < s.all_loads(source, n).len() && is_load(
                s,
                #[trigger] s.all_loads(source, n)[k],
                request,
                s.nodes@[id].start,
                s.nodes@[id].end,
            ),
    decreases n,
{
    let node = s.nodes@[id];
    let list = s.all_loads(source, n);
    if id == n - 1 {
        loads_have_their_consumers(s, source, request, (node.start, node.end));
        assert(is_load(s, list[list.len() - 1], request, node.start, node.end));
    } else {
        calls_hold(s, source, n - 1, id, request);
        let before = s.all_loads(source, n - 1);
        let k = choose|k: int|
            0 <= k < before.len() && is_load(s, #[trigger] before[k], request, node.start, node.end);
        assert(list[k] == before[k]);
    }
}

/// A dynamic import whose request is no quoted text cannot be resolved and is kept as it is
/// written; a quoted one is not kept.
pub proof fn open_imports_are_kept(s: ModuleSyntax, source: Text, n: int, text: Text)
    requires
        0 <= n <= s.dynamic_imports@.len(),
    ensures
        s.open_imports(source, n).contains(text) <==> {
            &&& exists|i: int|
                0 <= i < n && byte_slice(
                    source,
                    (#[trigger] s.dynamic_imports@[i]).0.0 as int,
                    s.dynamic_imports@[i].0.1 as int,
                ) == Some(text)
            &&& forall|request: Text| !#[trigger] is_quoted_request(text, request)
        },
    decreases n,
{
    assert(is_quoted(text) == exists|request: Text| #[trigger] is_quoted_request(text, request)) by {
        if is_quoted(text) {
            let inner = text.subrange(1, text.len() - 1);
            assert(text =~= seq![text[0]] + inner + seq![text[0]]);
            assert(is_quoted_request(text, inner));
        }
        if exists|request: Text| #[trigger] is_quoted_request(text, request) {
            let request = choose|request: Text| #[trigger] is_quoted_request(text, request);
            quoted_requests_are_quoted(text, request);
        }
    }
    if n > 0 {
        open_imports_are_kept(s, source, n - 1, text);
        let before = s.open_imports(source, n - 1);
        let list = s.open_imports(source, n);
        let import = s.dynamic_imports@[n - 1];
        let said = byte_slice(source, import.0.0 as int, import.0.1 as int);
        if before.contains(text) {
            let k = choose|k: int| 0 <= k < before.len() && before[k] == text;
            assert(list[k] == text);
        }
        if list.contains(text) && !before.contains(text) {
            let k = choose|k: int| 0 <= k < list.len() && list[k] == text;
            assert(k == before.len());
            assert(said == Some(text));
        }
        if said == Some(text) && !is_quoted(text) {
            assert(list[before.len() as int] == text);
        }
    }
}

/// The namespace that an import binds is taken by its members where every use of it as a value
/// reads a fixed member, and as a whole where one does not.
pub proof fn namespaces_are_taken_by_their_members(
    s: ModuleSyntax,
    source: Text,
    e: int,
    i: int,
    member: Text,
)
    requires
        0 <= e < s.imports@.len(),
        import_views(s.imports@)[e].2 is None,
        is_top_symbol(s, i, import_views(s.imports@)[e].1),
        forall|j: int| 0 <= j < i ==> !#[trigger] is_top_symbol(s, j, import_views(s.imports@)[e].1),
    ensures
        match s.imported_at(e) {
            ImportedModel::Namespace(Some(members)) => {
                &&& forall|k: int| #[trigger]
                    s.refers(k, i) && !s.references@[k].type_only ==> reads_member(s, k) is Some
                &&& members.contains(member) <==> exists|k: int| #[trigger]
                    s.refers(k, i) && !s.references@[k].type_only && reads_member(s, k) == Some(member)
            },
            ImportedModel::Namespace(None) => exists|k: int| #[trigger]
                s.refers(k, i) && !s.references@[k].type_only && reads_member(s, k) is None,
            ImportedModel::Named(_) => false,
        },
{
    let local = import_views(s.imports@)[e].1;
    let n = s.references@.len() as int;
    let p = s.is_top_named(local);
    first_from_fits(p, 0, s.symbols@.len() as int);
    assert(p(i));
    assert(s.top_named(local) == Some(i)) by {
        if let Some(j) = s.top_named(local) {
            assert(p(j));
            if j < i {
                assert(is_top_symbol(s, j, local));
            }
            if i < j {
                assert(!p(i));
            }
        }
    }
    assert forall|k: int| #[trigger] s.member_name(k) == reads_member(s, k) by {}
    if !s.reads_members(i, n) {
        let k = choose|k: int|
            0 <= k < n && #[trigger] s.refers(k, i) && !(s.references@[k].type_only
                || s.member_name(k) is Some);
        assert(s.refers(k, i));
        assert(s.member_name(k) is None);
    } else {
        assert forall|k: int| #[trigger] s.refers(k, i) && !s.references@[k].type_only implies reads_member(
            s,
            k,
        ) is Some by {
            assert(s.member_name(k) is Some);
        }
        if s.members_read(i, n).contains(member) {
            let k = choose|k: int|
                0 <= k < n && #[trigger] s.refers(k, i) && !s.references@[k].type_only && s.member_name(k)
                    == Some(member);
            assert(s.refers(k, i));
        }
        if exists|k: int| #[trigger]
            s.refers(k, i) && !s.references@[k].type_only && reads_member(s, k) == Some(member) {
            let k = choose|k: int| #[trigger]
                s.refers(k, i) && !s.references@[k].type_only && reads_member(s, k) == Some(member);
            assert(s.member_name(k) == Some(member));
        }
    }
}

/// The member that reference `k` reads: the static name of the member expression around it, in
/// code or in a tag.
pub open spec fn reads_member(s: ModuleSyntax, k: int) -> Option<Text> {
    let id = s.references@[k].node as int;
    let parent = s.nodes@[id].parent as int;
    let kind = s.nodes@[parent].kind@;
    if 0 <= id < s.nodes@.len() && 0 <= parent < s.nodes@.len() && (kind == "StaticMemberExpression"@
        || kind == "ComputedMemberExpression"@ || kind == "PrivateFieldExpression"@ || kind
        == "JSXMemberExpression"@) {
        match s.nodes@[parent].label {
            Some(label) => Some(label@),
            None => None,
        }
    } else {
        None
    }
}

} // verus!
