//! What holds of every change of pnpm's lockfile.
use vstd::prelude::*;

use crate::collections::{ascending_list, ascending_list_fits, first_from_fits};
use crate::data::DataModel;
use crate::graph::resolve::{normal, DiskFacts};
use crate::lookup::{has_name, text_in};
use crate::path::shown;
use crate::pnpm::lockfile::{
    snapshots_alike, tables_alike, ImporterModel, LockfileModel, ReadModel, Text, TextMap,
};
use crate::pnpm::resolution::{
    asks_for, direct_references, effective, field_fault, follow_all, following_finds_the_closure,
    has_peers, is_meant, is_peer, map_pairs, meant, reference_of, refers, resolution_key,
    resolutions_alike, resolved_names, starts_at, with_references, with_table,
};
use crate::pnpm::{
    changed_among, importer_at, importer_change, lockfile_change, package_importers, read_change,
    revision_change,
};
use crate::text::behind;
use crate::walk::reaches;
use crate::workspace::owner::Path;
use crate::workspace::Package;

verus! {

/// A reference that is a text refers to that text.
pub proof fn plain_references_are_versions(text: Text)
    ensures
        reference_of(DataModel::Text(text)) == Ok::<Text, Text>(text),
{
}

/// A reference that is a table of a specifier and a version refers to the version.
pub proof fn tables_refer_to_their_version(entries: Seq<(DataModel, DataModel)>, at: int, version: Text)
    requires
        forall|i: int|
            0 <= i < entries.len() ==> (#[trigger] entries[i]).0 == DataModel::Text("specifier"@)
                || entries[i].0 == DataModel::Text("version"@),
        0 <= at < entries.len(),
        entries[at] == (DataModel::Text("version"@), DataModel::Text(version)),
        forall|i: int|
            0 <= i < entries.len() && i != at ==> (#[trigger] entries[i]).0 != DataModel::Text(
                "version"@,
            ),
    ensures
        reference_of(DataModel::Table(entries)) == Ok::<Text, Text>(version),
{
    fields_are_fine(entries, 0);
    let p = has_name(entries, "version"@);
    first_from_fits(p, 0, entries.len() as int);
    assert(p(at));
}

proof fn fields_are_fine(entries: Seq<(DataModel, DataModel)>, i: int)
    requires
        0 <= i,
        forall|k: int|
            0 <= k < entries.len() ==> (#[trigger] entries[k]).0 == DataModel::Text("specifier"@)
                || entries[k].0 == DataModel::Text("version"@),
    ensures
        field_fault(entries, i) is None,
    decreases entries.len() - i,
{
    if i < entries.len() {
        assert(text_in(entries[i].0) is Some);
        fields_are_fine(entries, i + 1);
    }
}

/// A table refers to `version` under `name`.
pub open spec fn names_version(table: TextMap, name: Text, version: Text) -> bool {
    table.dom().contains(name) && reference_of(table[name]) == Ok::<Text, Text>(version)
}

/// One of the tables of an importer, for deployment, for development or for optional use, refers
/// to `version` under `name`.
pub open spec fn depends_on(i: ImporterModel, name: Text, version: Text) -> bool {
    names_version(i.dependencies, name, version) || names_version(i.dev_dependencies, name, version)
        || names_version(i.optional_dependencies, name, version)
}

/// Some table of an importer has the name.
pub open spec fn has_dependency(i: ImporterModel, name: Text) -> bool {
    i.dependencies.dom().contains(name) || i.dev_dependencies.dom().contains(name)
        || i.optional_dependencies.dom().contains(name)
}

/// The tables of an importer are finite.
pub open spec fn is_finite_importer(i: ImporterModel) -> bool {
    i.dependencies.dom().finite() && i.dev_dependencies.dom().finite()
        && i.optional_dependencies.dom().finite()
}

/// Every reference of a table can be read, and agrees with what is known already.
spec fn fits(start: Map<Text, Text>, m: TextMap, names: Seq<Text>, n: int) -> bool {
    forall|k: int|
        0 <= k < n ==> reference_of(m[#[trigger] names[k]]) is Ok && (start.dom().contains(names[k])
            ==> start[names[k]] == reference_of(m[names[k]])->Ok_0)
}

proof fn references_add_up(start: Map<Text, Text>, m: TextMap, names: Seq<Text>, n: int)
    requires
        0 <= n <= names.len(),
        names.no_duplicates(),
    ensures
        with_references(start, m, names, n) is Ok == fits(start, m, names, n),
        with_references(start, m, names, n) matches Ok(all) ==> {
            &&& forall|x: Text| #[trigger]
                all.dom().contains(x) == (start.dom().contains(x) || names.take(n).contains(x))
            &&& forall|x: Text| #[trigger] start.dom().contains(x) ==> all[x] == start[x]
            &&& forall|k: int|
                0 <= k < n ==> all[#[trigger] names[k]] == reference_of(m[names[k]])->Ok_0
        },
    decreases n,
{
    if n > 0 {
        references_add_up(start, m, names, n - 1);
        let before = with_references(start, m, names, n - 1);
        let name = names[n - 1];
        let front = names.take(n - 1);
        let whole = names.take(n);
        assert(!front.contains(name)) by {
            if front.contains(name) {
                let k = choose|k: int| 0 <= k < front.len() && front[k] == name;
                assert(names[k] == names[n - 1]);
            }
        }
        if fits(start, m, names, n) {
            assert(fits(start, m, names, n - 1)) by {
                assert forall|k: int| 0 <= k < n - 1 implies reference_of(m[#[trigger] names[k]]) is Ok
                    && (start.dom().contains(names[k]) ==> start[names[k]] == reference_of(
                    m[names[k]],
                )->Ok_0) by {}
            }
            assert(reference_of(m[names[n - 1]]) is Ok);
        }
        if with_references(start, m, names, n) is Ok {
            assert(fits(start, m, names, n - 1));
            assert forall|k: int| 0 <= k < n implies reference_of(m[#[trigger] names[k]]) is Ok && (
            start.dom().contains(names[k]) ==> start[names[k]] == reference_of(
                m[names[k]],
            )->Ok_0) by {
                if k < n - 1 {
                    assert(reference_of(m[names[k]]) is Ok);
                }
            }
            let all = with_references(start, m, names, n)->Ok_0;
            assert forall|x: Text| #[trigger] all.dom().contains(x) == (start.dom().contains(x)
                || names.take(n).contains(x)) by {
                assert(before->Ok_0.dom().contains(x) == (start.dom().contains(x)
                    || names.take(n - 1).contains(x)));
                if front.contains(x) {
                    let k = choose|k: int| 0 <= k < front.len() && front[k] == x;
                    assert(whole[k] == x);
                }
                if whole.contains(x) {
                    let k = choose|k: int| 0 <= k < whole.len() && whole[k] == x;
                    if k < n - 1 {
                        assert(front[k] == x);
                    }
                }
                if x == name {
                    assert(whole[n - 1] == x);
                }
            }
            assert forall|k: int| 0 <= k < n implies all[#[trigger] names[k]] == reference_of(
                m[names[k]],
            )->Ok_0 by {
                if k < n - 1 {
                    assert(names[k] != names[n - 1]);
                }
            }
        }
    }
}

/// What a table adds to the references that are known.
proof fn tables_add_up(start: Map<Text, Text>, m: TextMap)
    requires
        m.dom().finite(),
    ensures
        with_table(Ok(start), m) is Ok == (forall|x: Text| #[trigger]
            m.dom().contains(x) ==> reference_of(m[x]) is Ok && (start.dom().contains(x) ==> start[x]
                == reference_of(m[x])->Ok_0)),
        with_table(Ok(start), m) matches Ok(all) ==> {
            &&& forall|x: Text| #[trigger]
                all.dom().contains(x) == (start.dom().contains(x) || m.dom().contains(x))
            &&& forall|x: Text| #[trigger] start.dom().contains(x) ==> all[x] == start[x]
            &&& forall|x: Text| #[trigger] m.dom().contains(x) ==> names_version(m, x, all[x])
        },
{
    let names = ascending_list::<String>(m.dom());
    ascending_list_fits::<String>(m.dom());
    let n = names.len() as int;
    references_add_up(start, m, names, n);
    assert(names.take(n) =~= names);
    assert forall|x: Text| #[trigger] m.dom().contains(x) == names.contains(x) by {
        assert(names.to_set().contains(x) == m.dom().contains(x));
    }
    if fits(start, m, names, n) {
        assert forall|x: Text| #[trigger] m.dom().contains(x) implies reference_of(m[x]) is Ok && (
        start.dom().contains(x) ==> start[x] == reference_of(m[x])->Ok_0) by {
            let k = choose|k: int| 0 <= k < names.len() && names[k] == x;
            assert(reference_of(m[names[k]]) is Ok);
        }
    }
    if forall|x: Text| #[trigger]
        m.dom().contains(x) ==> reference_of(m[x]) is Ok && (start.dom().contains(x) ==> start[x]
            == reference_of(m[x])->Ok_0) {
        assert forall|k: int| 0 <= k < n implies reference_of(m[#[trigger] names[k]]) is Ok && (
        start.dom().contains(names[k]) ==> start[names[k]] == reference_of(m[names[k]])->Ok_0) by {
            assert(names.contains(names[k]));
            assert(m.dom().contains(names[k]));
        }
    }
    if let Ok(all) = with_table(Ok(start), m) {
        assert forall|x: Text| #[trigger] m.dom().contains(x) implies names_version(m, x, all[x]) by {
            let k = choose|k: int| 0 <= k < names.len() && names[k] == x;
            assert(all[names[k]] == reference_of(m[names[k]])->Ok_0);
            assert(reference_of(m[names[k]]) is Ok);
        }
    }
}

/// The direct references of an importer, where they can be told: they hold each name of any of
/// its three tables and no other, with the version that every entry of that name refers to. They
/// can be told exactly where every reference can be read and no two of one name disagree.
pub proof fn importers_refer_to_all_their_tables(i: ImporterModel)
    requires
        is_finite_importer(i),
    ensures
        direct_references(i) is Ok == (forall|x: Text| #[trigger]
            has_dependency(i, x) ==> exists|v: Text| #[trigger] is_settled(i, x, v)),
        direct_references(i) matches Ok(all) ==> forall|x: Text| #[trigger]
            all.dom().contains(x) == has_dependency(i, x),
        direct_references(i) matches Ok(all) ==> forall|x: Text, v: Text| #[trigger]
            depends_on(i, x, v) ==> all.dom().contains(x) && all[x] == v,
        direct_references(i) matches Ok(all) ==> forall|x: Text| #[trigger]
            all.dom().contains(x) ==> depends_on(i, x, all[x]),
{
    let none = Map::<Text, Text>::empty();
    tables_add_up(none, i.dependencies);
    let a = with_table(Ok(none), i.dependencies);
    if let Ok(first) = a {
        tables_add_up(first, i.dev_dependencies);
        if let Ok(second) = with_table(a, i.dev_dependencies) {
            tables_add_up(second, i.optional_dependencies);
        }
    }
    match direct_references(i) {
        Ok(all) => {
            let first = a->Ok_0;
            let second = with_table(a, i.dev_dependencies)->Ok_0;
            assert forall|x: Text| #[trigger] has_dependency(i, x) implies is_settled(i, x, all[x]) by {
                if i.dependencies.dom().contains(x) {
                    assert(first.dom().contains(x) && second.dom().contains(x));
                }
                if i.dev_dependencies.dom().contains(x) {
                    assert(second.dom().contains(x));
                }
            }
            assert forall|x: Text| #[trigger] has_dependency(i, x) implies exists|v: Text| #[trigger]
                is_settled(i, x, v) by {
                assert(is_settled(i, x, all[x]));
            }
            assert forall|x: Text, v: Text| #[trigger] depends_on(i, x, v) implies all.dom().contains(
                x,
            ) && all[x] == v by {
                assert(has_dependency(i, x));
                assert(is_settled(i, x, all[x]));
            }
        },
        Err(_) => {
            if forall|x: Text| #[trigger]
                has_dependency(i, x) ==> exists|v: Text| #[trigger] is_settled(i, x, v) {
                assert forall|x: Text| #[trigger] i.dependencies.dom().contains(x) implies
                    reference_of(i.dependencies[x]) is Ok by {
                    assert(has_dependency(i, x));
                }
                let first = a->Ok_0;
                assert forall|x: Text| #[trigger] i.dev_dependencies.dom().contains(x) implies
                    reference_of(i.dev_dependencies[x]) is Ok && (first.dom().contains(x) ==> first[x]
                    == reference_of(i.dev_dependencies[x])->Ok_0) by {
                    assert(has_dependency(i, x));
                    let v = choose|v: Text| #[trigger] is_settled(i, x, v);
                    if first.dom().contains(x) {
                        assert(i.dependencies.dom().contains(x));
                    }
                }
                let second = with_table(a, i.dev_dependencies)->Ok_0;
                assert forall|x: Text| #[trigger] i.optional_dependencies.dom().contains(x) implies
                    reference_of(i.optional_dependencies[x]) is Ok && (second.dom().contains(x)
                    ==> second[x] == reference_of(i.optional_dependencies[x])->Ok_0) by {
                    assert(has_dependency(i, x));
                    let v = choose|v: Text| #[trigger] is_settled(i, x, v);
                    if second.dom().contains(x) {
                        if i.dev_dependencies.dom().contains(x) {
                            assert(names_version(i.dev_dependencies, x, second[x]));
                        } else {
                            assert(first.dom().contains(x));
                            assert(i.dependencies.dom().contains(x));
                        }
                    }
                }
            }
        },
    }
}

/// Every entry that an importer has for `name` refers to `version`.
pub open spec fn is_settled(i: ImporterModel, name: Text, version: Text) -> bool {
    &&& i.dependencies.dom().contains(name) ==> names_version(i.dependencies, name, version)
    &&& i.dev_dependencies.dom().contains(name) ==> names_version(i.dev_dependencies, name, version)
    &&& i.optional_dependencies.dom().contains(name) ==> names_version(
        i.optional_dependencies,
        name,
        version,
    )
}

/// An importer of a lockfile refers to `version` under the name `dependency`.
pub open spec fn asks(lock: LockfileModel, importer: Text, dependency: Text, version: Text) -> bool {
    lock.importers.dom().contains(importer) && depends_on(
        lock.importers[importer],
        dependency,
        version,
    )
}

/// The tables of a lockfile are finite.
pub open spec fn is_finite_lockfile(lock: LockfileModel) -> bool {
    &&& lock.importers.dom().finite()
    &&& lock.packages.dom().finite()
    &&& lock.snapshots.dom().finite()
    &&& forall|name: Text| #[trigger]
        lock.importers.dom().contains(name) ==> is_finite_importer(lock.importers[name])
}

/// An importer of a lockfile needs a resolved package: a reference of it leads there, directly or
/// through other resolved packages.
pub open spec fn needs(lock: LockfileModel, importer: Text, key: Text) -> bool {
    exists|dependency: Text, version: Text, start: Text| #[trigger]
        asks(lock, importer, dependency, version) && #[trigger] refers(
            lock,
            (dependency, version),
            start,
        ) && reaches(asks_for(lock), start, key)
}

proof fn importers_are_finite(lock: LockfileModel, name: Text)
    requires
        is_finite_lockfile(lock),
    ensures
        is_finite_importer(importer_at(lock, name)),
{
    if lock.importers.dom().contains(name) {
        assert(is_finite_importer(lock.importers[name]));
    }
}

/// The change of an importer concerns the package `p`.
spec fn concerns(
    old: LockfileModel,
    new: LockfileModel,
    owners: Map<Text, Text>,
    name: Text,
    p: Text,
) -> bool {
    importer_change(old, new, owners, name) == Ok::<Option<Text>, Text>(Some(p))
}

proof fn changes_add_up(
    old: LockfileModel,
    new: LockfileModel,
    owners: Map<Text, Text>,
    names: Seq<Text>,
    n: int,
)
    requires
        0 <= n <= names.len(),
    ensures
        changed_among(old, new, owners, names, n) is Ok == (forall|k: int|
            0 <= k < n ==> importer_change(old, new, owners, #[trigger] names[k]) is Ok),
        changed_among(old, new, owners, names, n) matches Ok(all) ==> forall|p: Text| #[trigger]
            all.contains(p) == (exists|k: int|
                0 <= k < n && concerns(old, new, owners, #[trigger] names[k], p)),
    decreases n,
{
    if n > 0 {
        changes_add_up(old, new, owners, names, n - 1);
        let before = changed_among(old, new, owners, names, n - 1);
        let last = importer_change(old, new, owners, names[n - 1]);
        if forall|k: int|
            0 <= k < n ==> importer_change(old, new, owners, #[trigger] names[k]) is Ok {
            assert(last is Ok);
        }
        if changed_among(old, new, owners, names, n) is Ok {
            assert forall|k: int| 0 <= k < n implies importer_change(
                old,
                new,
                owners,
                #[trigger] names[k],
            ) is Ok by {
                assert(before is Ok && last is Ok);
            }
            let all = changed_among(old, new, owners, names, n)->Ok_0;
            assert forall|p: Text| #[trigger] all.contains(p) == (exists|k: int|
                0 <= k < n && concerns(old, new, owners, #[trigger] names[k], p)) by {
                assert(before->Ok_0.contains(p) == (exists|k: int|
                    0 <= k < n - 1 && concerns(old, new, owners, #[trigger] names[k], p)));
                if last == Ok::<Option<Text>, Text>(Some(p)) {
                    assert(concerns(old, new, owners, names[n - 1], p));
                }
            }
        }
    }
}

/// The change of a lockfile is that of its importers.
proof fn lockfiles_change_by_importers(
    old: LockfileModel,
    new: LockfileModel,
    owners: Map<Text, Text>,
    changed: Set<Text>,
)
    requires
        old.importers.dom().finite(),
        new.importers.dom().finite(),
        lockfile_change(old, new, owners) == Ok::<Set<Text>, Text>(changed),
    ensures
        forall|name: Text|
            old.importers.dom().contains(name) || new.importers.dom().contains(name)
                ==> #[trigger] importer_change(old, new, owners, name) is Ok,
        forall|name: Text, p: Text|
            (old.importers.dom().contains(name) || new.importers.dom().contains(name))
                && #[trigger] concerns(old, new, owners, name, p)
                ==> #[trigger] changed.contains(p),
        forall|p: Text| #[trigger]
            changed.contains(p) ==> exists|name: Text|
                (old.importers.dom().contains(name) || new.importers.dom().contains(name))
                    && #[trigger] concerns(old, new, owners, name, p),
{
    let all = old.importers.dom().union(new.importers.dom());
    let names = ascending_list::<String>(all);
    ascending_list_fits::<String>(all);
    changes_add_up(old, new, owners, names, names.len() as int);
    assert(changed_among(old, new, owners, names, names.len() as int) == Ok::<Set<Text>, Text>(
        changed,
    ));
    assert forall|p: Text| #[trigger] changed.contains(p) == (exists|k: int|
        0 <= k < names.len() && concerns(old, new, owners, #[trigger] names[k], p)) by {
        let sum = changed_among(old, new, owners, names, names.len() as int);
        assert(sum->Ok_0.contains(p) == changed.contains(p));
    }
    assert forall|name: Text| all.contains(name) implies names.contains(name) by {
        assert(names.to_set().contains(name));
    }
    assert forall|name: Text|
        old.importers.dom().contains(name) || new.importers.dom().contains(name) implies
        #[trigger] importer_change(old, new, owners, name) is Ok by {
        assert(all.contains(name));
        let k = choose|k: int| 0 <= k < names.len() && names[k] == name;
        assert(importer_change(old, new, owners, names[k]) is Ok);
    }
    assert forall|name: Text, p: Text|
        (old.importers.dom().contains(name) || new.importers.dom().contains(name))
            && #[trigger] concerns(old, new, owners, name, p)
        implies #[trigger] changed.contains(p) by {
        assert(all.contains(name));
        let k = choose|k: int| 0 <= k < names.len() && names[k] == name;
        assert(concerns(old, new, owners, names[k], p));
    }
    assert forall|p: Text| #[trigger] changed.contains(p) implies exists|name: Text|
        (old.importers.dom().contains(name) || new.importers.dom().contains(name))
            && #[trigger] concerns(old, new, owners, name, p) by {
        let k = choose|k: int|
            0 <= k < names.len() && concerns(old, new, owners, #[trigger] names[k], p);
        assert(names.to_set().contains(names[k]));
        assert(all.contains(names[k]));
    }
}

/// What an importer asks for is what is known of it.
proof fn importers_ask(lock: LockfileModel, name: Text, x: Text, v: Text)
    ensures
        asks(lock, name, x, v) == depends_on(importer_at(lock, name), x, v),
{
}

/// What the resolution of an importer holds: its direct references, and every resolved package
/// that it needs.
proof fn resolutions_hold_what_is_needed(lock: LockfileModel, name: Text)
    requires
        is_finite_lockfile(lock),
        effective(lock, importer_at(lock, name)) is Ok,
    ensures
        ({
            let r = effective(lock, importer_at(lock, name))->Ok_0;
            &&& forall|x: Text, v: Text| #[trigger]
                asks(lock, name, x, v) == (r.direct.dom().contains(x) && r.direct[x] == v)
            &&& forall|key: Text| #[trigger]
                r.snapshots.dom().contains(key) == (needs(lock, name, key)
                    && lock.snapshots.dom().contains(key))
            &&& forall|key: Text| #[trigger]
                r.snapshots.dom().contains(key) ==> r.snapshots[key] == lock.snapshots[key]
            &&& forall|part: Text| #[trigger]
                r.packages.dom().contains(part) == (lock.packages.dom().contains(part)
                    && exists|key: Text| #[trigger]
                    needs(lock, name, key) && is_named_by(part, key))
            &&& forall|part: Text| #[trigger]
                r.packages.dom().contains(part) ==> r.packages[part] == lock.packages[part]
        }),
{
    let i = importer_at(lock, name);
    importers_are_finite(lock, name);
    importers_refer_to_all_their_tables(i);
    let direct = direct_references(i)->Ok_0;
    let names = ascending_list::<String>(direct.dom());
    let r = effective(lock, i)->Ok_0;
    assert(r.direct == direct);
    assert forall|x: Text, v: Text| #[trigger]
        asks(lock, name, x, v) == (direct.dom().contains(x) && direct[x] == v) by {
        importers_ask(lock, name, x, v);
        if depends_on(i, x, v) {
            assert(direct.dom().contains(x));
        }
        if direct.dom().contains(x) {
            assert(depends_on(i, x, direct[x]));
        }
    }
    let dom = i.dependencies.dom().union(i.dev_dependencies.dom()).union(
        i.optional_dependencies.dom(),
    );
    assert(direct.dom() =~= dom) by {
        assert forall|x: Text| direct.dom().contains(x) == dom.contains(x) by {
            assert(direct.dom().contains(x) == has_dependency(i, x));
        }
    }
    ascending_list_fits::<String>(direct.dom());
    let list = map_pairs(direct, names);
    let seen = follow_all(lock, list, Set::empty())->Ok_0;
    assert(resolved_names(lock).finite());
    assert forall|start: Text| #[trigger] starts_at(lock, list, start) == (exists|x: Text, v: Text|
        #[trigger] asks(lock, name, x, v) && refers(lock, (x, v), start)) by {
        if starts_at(lock, list, start) {
            let k = choose|k: int| 0 <= k < list.len() && refers(lock, #[trigger] list[k], start);
            let x = names[k];
            assert(list[k] == (x, direct[x]));
            assert(names.to_set().contains(x));
            assert(asks(lock, name, x, direct[x]));
        }
        if exists|x: Text, v: Text| #[trigger]
            asks(lock, name, x, v) && refers(lock, (x, v), start) {
            let (x, v) = choose|x: Text, v: Text| #[trigger]
                asks(lock, name, x, v) && refers(lock, (x, v), start);
            assert(names.to_set().contains(x));
            let k = choose|k: int| 0 <= k < names.len() && names[k] == x;
            assert(list[k] == (x, v));
        }
    }
    assert forall|key: Text| #[trigger] seen.contains(key) == needs(lock, name, key) by {
        following_finds_the_closure(lock, list, key);
        if seen.contains(key) {
            let start = choose|start: Text|
                starts_at(lock, list, start) && #[trigger] reaches(asks_for(lock), start, key);
            let (x, v) = choose|x: Text, v: Text| #[trigger]
                asks(lock, name, x, v) && refers(lock, (x, v), start);
            assert(asks(lock, name, x, v) && refers(lock, (x, v), start));
        }
        if needs(lock, name, key) {
            let (x, v, start) = choose|x: Text, v: Text, start: Text| #[trigger]
                asks(lock, name, x, v) && #[trigger] refers(lock, (x, v), start) && reaches(
                    asks_for(lock),
                    start,
                    key,
                );
            assert(starts_at(lock, list, start));
        }
    }
    assert forall|part: Text| #[trigger]
        r.packages.dom().contains(part) == (lock.packages.dom().contains(part)
            && exists|key: Text| #[trigger] needs(lock, name, key) && is_named_by(part, key)) by {
        if r.packages.dom().contains(part) {
            let key = choose|key: Text| #[trigger]
                seen.contains(key) && (part == key || part == crate::words::before_first(key, '('));
            assert(needs(lock, name, key) && is_named_by(part, key));
        }
        if exists|key: Text| #[trigger] needs(lock, name, key) && is_named_by(part, key) {
            let key = choose|key: Text| #[trigger] needs(lock, name, key) && is_named_by(part, key);
            assert(seen.contains(key));
        }
    }
}

/// A package entry describes a resolved package: it has its name, or its name without peers.
pub open spec fn is_named_by(part: Text, key: Text) -> bool {
    part == key || part == crate::words::before_first(key, '(')
}

/// An importer that refers to something else than before, in whichever of its tables, concerns
/// its package. Where the importer is the root, or belongs to no package, the change cannot be
/// modeled.
pub proof fn changed_references_concern_the_package(
    old: LockfileModel,
    new: LockfileModel,
    owners: Map<Text, Text>,
    importer: Text,
    dependency: Text,
    version: Text,
)
    requires
        is_finite_lockfile(old),
        is_finite_lockfile(new),
        asks(old, importer, dependency, version) != asks(new, importer, dependency, version),
    ensures
        lockfile_change(old, new, owners) matches Ok(changed) ==> importer != "."@
            && owners.dom().contains(importer) && changed.contains(owners[importer]),
{
    if let Ok(changed) = lockfile_change(old, new, owners) {
        lockfiles_change_by_importers(old, new, owners, changed);
        assert(importer_change(old, new, owners, importer) is Ok);
        resolutions_hold_what_is_needed(old, importer);
        resolutions_hold_what_is_needed(new, importer);
        let a = effective(old, importer_at(old, importer))->Ok_0;
        let b = effective(new, importer_at(new, importer))->Ok_0;
        assert(a.direct != b.direct);
        assert(concerns(old, new, owners, importer, owners[importer]));
    }
}

/// An importer that needs a resolved package which it did not need before, or whose snapshot is
/// not what it was, concerns its package, however far away the resolved package is.
pub proof fn changed_closures_concern_the_package(
    old: LockfileModel,
    new: LockfileModel,
    owners: Map<Text, Text>,
    importer: Text,
    key: Text,
)
    requires
        is_finite_lockfile(old),
        is_finite_lockfile(new),
        needs(new, importer, key),
        new.snapshots.dom().contains(key),
        !needs(old, importer, key) || !old.snapshots.dom().contains(key) || !snapshots_alike(
            old.snapshots[key],
            new.snapshots[key],
        ),
    ensures
        lockfile_change(old, new, owners) matches Ok(changed) ==> importer != "."@
            && owners.dom().contains(importer) && changed.contains(owners[importer]),
{
    if let Ok(changed) = lockfile_change(old, new, owners) {
        let (x, v, start) = choose|x: Text, v: Text, start: Text| #[trigger]
            asks(new, importer, x, v) && #[trigger] refers(new, (x, v), start) && reaches(
                asks_for(new),
                start,
                key,
            );
        assert(new.importers.dom().contains(importer));
        lockfiles_change_by_importers(old, new, owners, changed);
        assert(importer_change(old, new, owners, importer) is Ok);
        resolutions_hold_what_is_needed(old, importer);
        resolutions_hold_what_is_needed(new, importer);
        let a = effective(old, importer_at(old, importer))->Ok_0;
        let b = effective(new, importer_at(new, importer))->Ok_0;
        assert(b.snapshots.dom().contains(key));
        if a.snapshots.dom().contains(key) {
            assert(!snapshots_alike(a.snapshots[key], b.snapshots[key]));
        }
        assert(!resolutions_alike(a, b));
        assert(concerns(old, new, owners, importer, owners[importer]));
    }
}

/// The same for the entry that describes a needed package.
pub proof fn changed_packages_concern_the_package(
    old: LockfileModel,
    new: LockfileModel,
    owners: Map<Text, Text>,
    importer: Text,
    key: Text,
    part: Text,
)
    requires
        is_finite_lockfile(old),
        is_finite_lockfile(new),
        needs(new, importer, key),
        is_named_by(part, key),
        new.packages.dom().contains(part),
        !old.packages.dom().contains(part) || !crate::lookup::alike(
            old.packages[part],
            new.packages[part],
        ),
    ensures
        lockfile_change(old, new, owners) matches Ok(changed) ==> importer != "."@
            && owners.dom().contains(importer) && changed.contains(owners[importer]),
{
    if let Ok(changed) = lockfile_change(old, new, owners) {
        let (x, v, start) = choose|x: Text, v: Text, start: Text| #[trigger]
            asks(new, importer, x, v) && #[trigger] refers(new, (x, v), start) && reaches(
                asks_for(new),
                start,
                key,
            );
        assert(new.importers.dom().contains(importer));
        lockfiles_change_by_importers(old, new, owners, changed);
        assert(importer_change(old, new, owners, importer) is Ok);
        resolutions_hold_what_is_needed(old, importer);
        resolutions_hold_what_is_needed(new, importer);
        let a = effective(old, importer_at(old, importer))->Ok_0;
        let b = effective(new, importer_at(new, importer))->Ok_0;
        assert(b.packages.dom().contains(part));
        if a.packages.dom().contains(part) {
            assert(!crate::lookup::alike(a.packages[part], b.packages[part]));
        }
        assert(!resolutions_alike(a, b));
        assert(concerns(old, new, owners, importer, owners[importer]));
    }
}

/// Two lockfiles say the same about an importer: it refers to the same, needs the same, and what
/// it needs is the same.
pub open spec fn is_same_for(old: LockfileModel, new: LockfileModel, importer: Text) -> bool {
    &&& forall|x: Text, v: Text| #[trigger] asks(old, importer, x, v) == asks(new, importer, x, v)
    &&& forall|key: Text| #[trigger] needs(old, importer, key) == needs(new, importer, key)
    &&& forall|key: Text| #[trigger]
        needs(new, importer, key) ==> old.snapshots.dom().contains(key) == new.snapshots.dom().contains(
            key,
        ) && old.snapshots[key] == new.snapshots[key]
    &&& forall|key: Text, part: Text|
        #[trigger] needs(new, importer, key) && #[trigger] is_named_by(part, key)
            ==> old.packages.dom().contains(part) == new.packages.dom().contains(part)
            && old.packages[part] == new.packages[part]
}

/// A change of a lockfile concerns only packages of which an importer refers to something else,
/// needs something else, or needs something that is not what it was.
pub proof fn only_changed_importers_concern_packages(
    old: LockfileModel,
    new: LockfileModel,
    owners: Map<Text, Text>,
    package: Text,
)
    requires
        is_finite_lockfile(old),
        is_finite_lockfile(new),
        forall|importer: Text| #[trigger]
            owners.dom().contains(importer) && owners[importer] == package ==> is_same_for(
                old,
                new,
                importer,
            ),
    ensures
        lockfile_change(old, new, owners) matches Ok(changed) ==> !changed.contains(package),
{
    if let Ok(changed) = lockfile_change(old, new, owners) {
        lockfiles_change_by_importers(old, new, owners, changed);
        if changed.contains(package) {
            let importer = choose|name: Text|
                (old.importers.dom().contains(name) || new.importers.dom().contains(name))
                    && #[trigger] concerns(old, new, owners, name, package);
            assert(owners.dom().contains(importer) && owners[importer] == package);
            resolutions_hold_what_is_needed(old, importer);
            resolutions_hold_what_is_needed(new, importer);
            let a = effective(old, importer_at(old, importer))->Ok_0;
            let b = effective(new, importer_at(new, importer))->Ok_0;
            assert(a.direct =~= b.direct) by {
                assert forall|x: Text| a.direct.dom().contains(x) == b.direct.dom().contains(x) by {
                    if a.direct.dom().contains(x) {
                        assert(asks(old, importer, x, a.direct[x]));
                    }
                    if b.direct.dom().contains(x) {
                        assert(asks(new, importer, x, b.direct[x]));
                        assert(asks(old, importer, x, b.direct[x]));
                    }
                }
                assert forall|x: Text| a.direct.dom().contains(x) implies a.direct[x] == b.direct[x] by {
                    assert(asks(old, importer, x, a.direct[x]));
                    assert(asks(new, importer, x, a.direct[x]));
                }
            }
            assert(a.snapshots =~= b.snapshots) by {
                assert forall|k: Text| a.snapshots.dom().contains(k) == b.snapshots.dom().contains(k) by {
                    assert(needs(old, importer, k) == needs(new, importer, k));
                }
                assert forall|k: Text| a.snapshots.dom().contains(k) implies a.snapshots[k]
                    == b.snapshots[k] by {
                    assert(needs(old, importer, k) == needs(new, importer, k));
                    assert(b.snapshots.dom().contains(k));
                }
            }
            assert(a.packages =~= b.packages) by {
                assert forall|part: Text|
                    a.packages.dom().contains(part) == b.packages.dom().contains(part) && (
                    a.packages.dom().contains(part) ==> a.packages[part] == b.packages[part]) by {
                    if a.packages.dom().contains(part) {
                        let key = choose|key: Text| #[trigger]
                            needs(old, importer, key) && is_named_by(part, key);
                        assert(needs(new, importer, key) && is_named_by(part, key));
                    }
                    if b.packages.dom().contains(part) {
                        let key = choose|key: Text| #[trigger]
                            needs(new, importer, key) && is_named_by(part, key);
                        assert(needs(old, importer, key) && is_named_by(part, key));
                    }
                }
            }
            crate::pnpm::resolutions_are_like_themselves(a);
            assert(resolutions_alike(a, b));
        }
    }
}

/// Lockfiles of another version are not modeled, nor changes of what concerns all importers.
pub proof fn global_changes_are_not_modeled(
    old: LockfileModel,
    new: LockfileModel,
    owners: Map<Text, Text>,
    version: Text,
)
    requires
        new.version == DataModel::Text(version),
        (version != "9"@ && !"9."@.is_prefix_of(version)) || !tables_alike(old.global, new.global),
    ensures
        lockfile_change(old, new, owners) is Err,
        read_change(Ok(old), Ok(new), owners) is Err,
{
}

/// A lockfile that is missing or cannot be read at one of the revisions is not modeled.
pub proof fn missing_lockfiles_are_not_modeled(
    old: Option<ReadModel>,
    new: Option<ReadModel>,
    owners: Map<Text, Text>,
)
    requires
        old is None || new is None || old->0 is Err || new->0 is Err,
    ensures
        revision_change(old, new, owners) is Err,
{
}

/// A reference inside the workspace is to no resolved package.
pub proof fn workspace_references_resolve_to_nothing(
    lock: LockfileModel,
    name: Text,
    reference: Text,
)
    requires
        "link:"@.is_prefix_of(reference) || "workspace:"@.is_prefix_of(reference),
    ensures
        resolution_key(lock, name, reference) == Ok::<Option<Text>, Text>(None),
{
}

/// A reference by version that is none of a special kind.
pub open spec fn is_plain(reference: Text) -> bool {
    !"link:"@.is_prefix_of(reference) && !"workspace:"@.is_prefix_of(reference)
        && !"file:"@.is_prefix_of(reference) && !"portal:"@.is_prefix_of(reference)
        && !"npm:"@.is_prefix_of(reference)
}

/// Nothing is resolved under this name, neither alone nor with peers.
pub open spec fn is_unknown(lock: LockfileModel, name: Text) -> bool {
    &&& !lock.snapshots.dom().contains(name)
    &&& !lock.packages.dom().contains(name)
    &&& forall|key: Text| #[trigger]
        lock.snapshots.dom().contains(key) ==> !(name + "("@).is_prefix_of(key)
}

/// A version resolves to the snapshot of the name and the version; where there is none, to the
/// one snapshot of them with peers.
pub proof fn versions_resolve_by_name(
    lock: LockfileModel,
    name: Text,
    version: Text,
    key: Text,
)
    requires
        is_plain(version),
        is_unknown(lock, version),
        lock.snapshots.dom().contains(key),
        key == name + "@"@ + version || (!lock.snapshots.dom().contains(name + "@"@ + version) && (
        name + "@"@ + version + "("@).is_prefix_of(key) && forall|other: Text| #[trigger]
            lock.snapshots.dom().contains(other) && (name + "@"@ + version + "("@).is_prefix_of(other)
                ==> other == key),
    ensures
        resolution_key(lock, name, version) == Ok::<Option<Text>, Text>(Some(key)),
{
    let full = name + "@"@ + version;
    let all = meant(lock, version, full);
    assert(behind(version, "npm:"@) is None);
    assert(!has_peers(lock, version)) by {
        if has_peers(lock, version) {
            let k = choose|k: Text| is_peer(lock, version, k);
            assert(lock.snapshots.dom().contains(k));
        }
    }
    if key != full {
        assert(is_peer(lock, full, key));
    }
    assert(all =~= Set::<Text>::empty().insert(key)) by {
        assert forall|k: Text| all.contains(k) == (k == key) by {
            if is_meant(lock, full, k) && key != full {
                assert(is_peer(lock, full, k));
                assert(lock.snapshots.dom().contains(k));
            }
        }
    }
    assert(all.contains(key));
    let other = choose|k: Text| all == Set::<Text>::empty().insert(k);
    assert(all == Set::<Text>::empty().insert(other));
    assert(Set::<Text>::empty().insert(other).contains(key));
}

/// The package lies at `rest` below the root, and `name` spells that.
pub open spec fn is_imported_as(
    disk: DiskFacts,
    root: Path,
    package: Package,
    rest: Path,
    name: Text,
) -> bool {
    &&& normal(disk, package.dir@) == normal(disk, root) + rest
    &&& name == (if rest.len() == 0 {
        "."@
    } else {
        shown(rest)
    })
}

/// The package at `rest` below the root is the owner of the importer that is named by the way from
/// the root to it; a package at the root is that of the importer `.`. Of packages at one place the
/// last counts.
pub proof fn importers_belong_to_their_directory(
    disk: DiskFacts,
    root: Path,
    packages: Seq<Package>,
    i: int,
    rest: Path,
    name: Text,
)
    requires
        0 <= i < packages.len(),
        is_imported_as(disk, root, packages[i], rest, name),
        forall|j: int, other: Path|
            i < j < packages.len() ==> !#[trigger] is_imported_as(
                disk,
                root,
                packages[j],
                other,
                name,
            ),
    ensures
        package_importers(disk, root, packages, packages.len() as int).dom().contains(name),
        package_importers(disk, root, packages, packages.len() as int)[name] == packages[i].name@,
{
    last_owner_stays(disk, root, packages, i, rest, name, packages.len() as int);
}

proof fn last_owner_stays(
    disk: DiskFacts,
    root: Path,
    packages: Seq<Package>,
    i: int,
    rest: Path,
    name: Text,
    n: int,
)
    requires
        0 <= i < n <= packages.len(),
        is_imported_as(disk, root, packages[i], rest, name),
        forall|j: int, other: Path|
            i < j < packages.len() ==> !#[trigger] is_imported_as(
                disk,
                root,
                packages[j],
                other,
                name,
            ),
    ensures
        package_importers(disk, root, packages, n).dom().contains(name),
        package_importers(disk, root, packages, n)[name] == packages[i].name@,
    decreases n,
{
    let home = normal(disk, root);
    let dir = normal(disk, packages[n - 1].dir@);
    if n - 1 == i {
        assert(home.is_prefix_of(dir)) by {
            assert(dir.subrange(0, home.len() as int) =~= home);
        }
        assert(dir.skip(home.len() as int) =~= rest);
    } else {
        last_owner_stays(disk, root, packages, i, rest, name, n - 1);
        if home.is_prefix_of(dir) {
            let other = dir.skip(home.len() as int);
            assert(dir =~= home + other);
            assert(!is_imported_as(disk, root, packages[n - 1], other, name));
        }
    }
}

} // verus!
