//! What holds of the reasons for edges.
use vstd::prelude::*;

use crate::collections::{first_from, first_from_fits};
use crate::graph::explain::{import_words, reason_for, Reason};
use crate::graph::laws::{Path, Text};
use crate::graph::node::NodeModel;
use crate::graph::resolve::World;
use crate::parser::{entry_symbol, ImportedName, SourceLocation, MODULE_INIT};

verus! {

pub type Places = Map<(NodeModel, NodeModel), SourceLocation>;

/// A text between backquotes.
pub open spec fn quoted(text: Text) -> Text {
    "`"@ + text + "`"@
}

/// The symbol reads no registry by keys, and is no registry.
pub open spec fn is_plain(w: World, c: NodeModel) -> bool {
    let m = w.modules[c.0];
    &&& m.symbols@.dom().contains(c.1) ==> forall|name: Text|
        !#[trigger] m.symbols@[c.1].keyed_dependencies@.dom().contains(name)
    &&& !m.registries@.dom().contains(c.1)
}

/// A module of the graph, and not the one that stands for targets.
pub open spec fn is_in_module(w: World, c: NodeModel) -> bool {
    c.0 != seq!["<target>"@] && w.modules.dom().contains(c.0)
}

/// A target includes what it depends on.
pub proof fn targets_include(w: World, typed: Places, package: Text, d: NodeModel, type_only: bool)
    ensures
        reason_for(w, typed, (seq!["<target>"@], package), d, type_only) == (Reason {
            detail: "deployment target "@ + quoted(package) + " includes "@ + quoted(d.1),
            path: None,
            location: None,
        }),
{
}

/// What the compiler proved is the reason before any other at run time.
pub proof fn proven_keys_come_first(w: World, typed: Places, c: NodeModel, d: NodeModel)
    requires
        is_in_module(w, c),
        typed.dom().contains((c, d)),
    ensures
        reason_for(w, typed, c, d, false) == (Reason {
            detail: quoted(c.1) + " passes a TypeScript-proven registry key"@,
            path: Some(c.0),
            location: Some(typed[(c, d)]),
        }),
{
}

proof fn plain_symbols_read_no_keys(w: World, c: NodeModel, d: NodeModel)
    requires
        is_plain(w, c),
    ensures
        w.key_reason(c, d) is None,
        w.entry_reason(c, d) is None,
{
    let m = w.modules[c.0];
    if m.symbols@.dom().contains(c.1) {
        let keyed = m.symbols@[c.1].keyed_dependencies;
        keyed.dom_is_finite();
        if keyed.keys().len() > 0 {
            assert(keyed.keys().to_set().contains(keyed.keys()[0]));
            assert(keyed@.dom().contains(keyed.keys()[0]));
        }
    }
}

/// The local name of an import depends on what it imports by that import, and the place is that
/// of the import.
pub proof fn imports_are_their_own_reason(w: World, typed: Places, c: NodeModel, d: NodeModel)
    requires
        is_in_module(w, c),
    ensures
        w.modules[c.0].type_imports@.dom().contains(c.1) ==> reason_for(w, typed, c, d, true) == (Reason {
            detail: quoted(c.1) + " imports "@ + "type "@ + import_words(
                w.modules[c.0].type_imports@[c.1].imported,
            ) + " from "@ + quoted(w.modules[c.0].type_imports@[c.1].source@),
            path: Some(c.0),
            location: Some(w.modules[c.0].type_imports@[c.1].location),
        }),
        !typed.dom().contains((c, d)) && is_plain(w, c) && w.modules[c.0].imports@.dom().contains(c.1)
            ==> reason_for(w, typed, c, d, false) == (Reason {
            detail: quoted(c.1) + " imports "@ + import_words(
                w.modules[c.0].imports@[c.1].imported,
            ) + " from "@ + quoted(w.modules[c.0].imports@[c.1].source@),
            path: Some(c.0),
            location: Some(w.modules[c.0].imports@[c.1].location),
        }),
{
    if is_plain(w, c) {
        plain_symbols_read_no_keys(w, c, d);
    }
    assert(quoted(c.1) + " imports "@ + Seq::<char>::empty() =~= quoted(c.1) + " imports "@);
}

/// An import is told by the name that it takes, by the members that are used, or as a namespace.
pub proof fn imports_are_told_by_what_they_take(name: String)
    ensures
        import_words(ImportedName::Named(name)) == quoted(name@),
        import_words(ImportedName::Namespace { members: None }) == "the namespace"@,
{
}

/// A symbol that is no import depends on what stands beside it by mentioning it, and the place is
/// that of the first mention.
pub proof fn mentions_are_reasons(
    w: World,
    typed: Places,
    c: NodeModel,
    name: Text,
    place: SourceLocation,
)
    requires
        is_in_module(w, c),
        w.modules[c.0].symbols@.dom().contains(c.1),
    ensures
        !w.modules[c.0].type_imports@.dom().contains(c.1)
            && w.modules[c.0].symbols@[c.1].type_dependency_locations@.dom().contains(name) && place
            == w.modules[c.0].symbols@[c.1].type_dependency_locations@[name] ==> reason_for(
            w,
            typed,
            c,
            (c.0, name),
            true,
        ) == (Reason {
            detail: quoted(c.1) + " references "@ + quoted(name) + " as a "@ + "type"@
                + " dependency"@,
            path: Some(c.0),
            location: Some(place),
        }),
        !typed.dom().contains((c, (c.0, name))) && is_plain(w, c)
            && !w.modules[c.0].imports@.dom().contains(c.1)
            && w.modules[c.0].symbols@[c.1].dependency_locations@.dom().contains(name) && place
            == w.modules[c.0].symbols@[c.1].dependency_locations@[name] ==> reason_for(
            w,
            typed,
            c,
            (c.0, name),
            false,
        ) == (Reason {
            detail: quoted(c.1) + " references "@ + quoted(name) + " as a "@ + "runtime"@
                + " dependency"@,
            path: Some(c.0),
            location: Some(place),
        }),
{
    if is_plain(w, c) {
        plain_symbols_read_no_keys(w, c, (c.0, name));
    }
}

/// A registry depends on its entries because it contains their keys.
pub proof fn registries_contain_their_entries(
    w: World,
    typed: Places,
    c: NodeModel,
    key: Text,
)
    requires
        is_in_module(w, c),
        !typed.dom().contains((c, (c.0, entry_symbol(c.1, key)))),
        !w.modules[c.0].symbols@.dom().contains(c.1),
        w.modules[c.0].registries@.dom().contains(c.1),
        w.modules[c.0].registries@[c.1].entries@.dom().contains(key),
    ensures
        exists|other: Text|
            {
                &&& w.modules[c.0].registries@[c.1].entries@.dom().contains(other)
                &&& #[trigger] entry_symbol(c.1, other) == entry_symbol(c.1, key)
                &&& reason_for(w, typed, c, (c.0, entry_symbol(c.1, key)), false) == (Reason {
                    detail: "registry "@ + quoted(c.1) + " contains key "@ + quoted(other),
                    path: Some(c.0),
                    location: Some(w.modules[c.0].registries@[c.1].entries@[other].location),
                })
            },
{
    let d: NodeModel = (c.0, entry_symbol(c.1, key));
    let entries = w.modules[c.0].registries@[c.1].entries;
    let keys = entries.keys();
    entries.dom_is_finite();
    assert(keys.to_set().contains(key));
    let i = choose|i: int| 0 <= i < keys.len() && keys[i] == key;
    let p = w.is_entry(c, d);
    first_from_fits(p, 0, keys.len() as int);
    assert(p(i));
    let k = first_from(p, 0, keys.len() as int)->0;
    assert(p(k));
    assert(keys.to_set().contains(keys[k]));
    assert(entry_symbol(c.1, keys[k]) == entry_symbol(c.1, key));
}

/// A symbol that nothing else ties to a dependency loads its module by the first call that does.
pub proof fn loads_are_reasons(w: World, typed: Places, c: NodeModel, d: NodeModel, i: int)
    requires
        is_in_module(w, c),
        !typed.dom().contains((c, d)),
        is_plain(w, c),
        !w.modules[c.0].imports@.dom().contains(c.1),
        c.0 != d.0,
        0 <= i < w.modules[c.0].runtime_loads@.len(),
        w.modules[c.0].runtime_loads@[i].consumers@.contains(c.1),
        w.resolve(c.0, w.modules[c.0].runtime_loads@[i].source@) == Some(d.0),
        forall|k: int|
            0 <= k < i && (#[trigger] w.modules[c.0].runtime_loads@[k]).consumers@.contains(c.1)
                ==> w.resolve(c.0, w.modules[c.0].runtime_loads@[k].source@) != Some(d.0),
    ensures
        reason_for(w, typed, c, d, false) == (Reason {
            detail: quoted(c.1) + " loads "@ + quoted(w.modules[c.0].runtime_loads@[i].source@)
                + " at runtime"@,
            path: Some(c.0),
            location: Some(w.modules[c.0].runtime_loads@[i].location),
        }),
{
    plain_symbols_read_no_keys(w, c, d);
    let list = w.modules[c.0].runtime_loads@;
    let p = w.loads(c, d);
    first_from_fits(p, 0, list.len() as int);
    assert(p(i));
    if let Some(k) = first_from(p, 0, list.len() as int) {
        assert(p(k));
        if k < i {
            assert(list[k].consumers@.contains(c.1));
        }
        if i < k {
            assert(!p(i));
        }
    }
}

/// A module whose initialisation nothing else ties to that of another loads it by a request.
pub proof fn requests_are_reasons(w: World, typed: Places, path: Path, next: Path, request: Text)
    requires
        is_in_module(w, (path, MODULE_INIT@)),
        !typed.dom().contains(((path, MODULE_INIT@), (next, MODULE_INIT@))),
        is_plain(w, (path, MODULE_INIT@)),
        !w.modules[path].imports@.dom().contains(MODULE_INIT@),
        path != next,
        forall|k: int|
            0 <= k < w.modules[path].runtime_loads@.len() ==> !(
            #[trigger] w.modules[path].runtime_loads@[k]).consumers@.contains(MODULE_INIT@),
        w.modules[path].module_requests@.contains(request),
        w.resolve(path, request) == Some(next),
    ensures
        exists|other: Text|
            {
                &&& #[trigger] w.modules[path].module_requests@.contains(other)
                &&& w.resolve(path, other) == Some(next)
                &&& reason_for(w, typed, (path, MODULE_INIT@), (next, MODULE_INIT@), false).detail
                    == "module loads "@ + quoted(other) + " at runtime"@
            },
{
    let c: NodeModel = (path, MODULE_INIT@);
    let d: NodeModel = (next, MODULE_INIT@);
    plain_symbols_read_no_keys(w, c, d);
    let loads = w.modules[path].runtime_loads@;
    let p = w.loads(c, d);
    first_from_fits(p, 0, loads.len() as int);
    if let Some(k) = first_from(p, 0, loads.len() as int) {
        assert(p(k));
        assert(loads[k].consumers@.contains(MODULE_INIT@));
    }
    let list = w.modules[path].module_requests.list();
    let q = w.requests(c, d);
    first_from_fits(q, 0, list.len() as int);
    let i = choose|i: int| 0 <= i < list.len() && list[i] == request;
    assert(q(i));
    let k = first_from(q, 0, list.len() as int)->0;
    assert(q(k));
    assert(w.modules[path].module_requests@.contains(list[k]));
}

} // verus!
