//! What the dependencies of an importer resolve to.
use vstd::prelude::*;

use crate::collections::{
    ascending_list, ascending_list_is, difference_shrinks, KeyMap, KeySet,
};
use crate::data::{entry_models, entry_models_at, Data, DataModel};
use crate::lookup::{entry_named, table_in, text_in, under};
use crate::order::{chars_of, Key};
use crate::pnpm::lockfile::{
    data_map, same_snapshots, snapshots_alike, tables_alike, ImporterModel, LockfileModel,
    PnpmImporter, PnpmLockfile, SnapshotModel, Text, TextMap,
};
use crate::text::{behind, join2, join3, same, starts_with, strip_prefix, text_between};
use crate::walk::{closed_holds_reached, reaches, reaches_self, reaches_step};
use crate::words::{before_first, find_last, last_place, take_before};

verus! {

/// What is wrong with the fields of a reference, looking at entry `i` and those behind it.
pub open spec fn field_fault(entries: Seq<(DataModel, DataModel)>, i: int) -> Option<Text>
    decreases entries.len() - i,
{
    if i < 0 || i >= entries.len() {
        None
    } else {
        match text_in(entries[i].0) {
            None => Some("a pnpm dependency reference has a non-string field"@),
            Some(key) => if key != "specifier"@ && key != "version"@ {
                Some("a pnpm dependency reference contains unmodeled field `"@ + key + "`"@)
            } else {
                field_fault(entries, i + 1)
            },
        }
    }
}

/// The version that a dependency refers to, or what is wrong with the reference.
pub open spec fn reference_of(d: DataModel) -> Result<Text, Text> {
    match (text_in(d), table_in(d)) {
        (Some(text), _) => Ok(text),
        (None, None) => Err("a pnpm dependency reference has an unsupported shape"@),
        (None, Some(entries)) => match field_fault(entries, 0) {
            Some(fault) => Err(fault),
            None => match entry_named(entries, "version"@) {
                Some(i) => match text_in(entries[i].1) {
                    Some(text) => Ok(text),
                    None => Err("a pnpm dependency reference has no resolved version"@),
                },
                None => Err("a pnpm dependency reference has no resolved version"@),
            },
        },
    }
}

/// The names of the packages that a lockfile resolves.
pub open spec fn resolved_names(lock: LockfileModel) -> Set<Text> {
    lock.snapshots.dom().union(lock.packages.dom())
}

/// A resolved package is meant by `candidate`: it is the snapshot of that name; or, where there
/// is none, a snapshot of that name with peers; or, where there is none either, the package.
pub open spec fn is_meant(lock: LockfileModel, candidate: Text, key: Text) -> bool {
    if lock.snapshots.dom().contains(candidate) {
        key == candidate
    } else if has_peers(lock, candidate) {
        is_peer(lock, candidate, key)
    } else {
        key == candidate && lock.packages.dom().contains(candidate)
    }
}

/// A snapshot of `candidate` with peers.
pub open spec fn is_peer(lock: LockfileModel, candidate: Text, key: Text) -> bool {
    lock.snapshots.dom().contains(key) && (candidate + "("@).is_prefix_of(key)
}

pub open spec fn has_peers(lock: LockfileModel, candidate: Text) -> bool {
    exists|key: Text| is_peer(lock, candidate, key)
}

/// The resolved packages that a reference may mean, by its own text and by name and version.
pub open spec fn meant(lock: LockfileModel, reference: Text, full: Text) -> Set<Text> {
    Set::new(|key: Text| is_meant(lock, reference, key) || is_meant(lock, full, key))
}

/// The name and version of what an alias stands for: the parts around the last `@` that is not
/// at the front.
pub open spec fn alias_parts(alias: Text) -> Option<(Text, Text)> {
    let at = last_place(alias, '@', alias.len() as int);
    if at <= 1 {
        None
    } else {
        Some((alias.take(at - 1), alias.skip(at)))
    }
}

/// The resolved package that a set holds, where it holds exactly one.
pub open spec fn only(set: Set<Text>, name: Text, reference: Text) -> Result<Option<Text>, Text> {
    if set == Set::<Text>::empty() {
        Err("could not resolve pnpm dependency `"@ + name + "` at `"@ + reference + "`"@)
    } else if exists|key: Text| set == Set::<Text>::empty().insert(key) {
        Ok(Some(choose|key: Text| set == Set::<Text>::empty().insert(key)))
    } else {
        Err("pnpm dependency `"@ + name + "` at `"@ + reference + "` resolves ambiguously"@)
    }
}

/// The resolved package that a dependency refers to; none for one inside the workspace; or why
/// that cannot be told.
pub open spec fn resolution_key(lock: LockfileModel, name: Text, reference: Text) -> Result<
    Option<Text>,
    Text,
> {
    if "link:"@.is_prefix_of(reference) || "workspace:"@.is_prefix_of(reference) {
        Ok(None)
    } else if "file:"@.is_prefix_of(reference) || "portal:"@.is_prefix_of(reference) {
        Err("local dependency reference `"@ + reference + "` is not modeled"@)
    } else {
        match behind(reference, "npm:"@) {
            Some(alias) => match alias_parts(alias) {
                None => Err("pnpm alias `"@ + reference + "` is ambiguous"@),
                Some((actual, version)) => only(
                    meant(lock, reference, actual + "@"@ + version),
                    name,
                    reference,
                ),
            },
            None => only(meant(lock, reference, name + "@"@ + reference), name, reference),
        }
    }
}

/// What a dependency refers to is one of the packages that the lockfile resolves.
pub proof fn resolved_is_named(lock: LockfileModel, name: Text, reference: Text)
    ensures
        match resolution_key(lock, name, reference) {
            Ok(Some(key)) => resolved_names(lock).contains(key),
            _ => true,
        },
{
    match resolution_key(lock, name, reference) {
        Ok(Some(key)) => {
            let full = match behind(reference, "npm:"@) {
                Some(alias) => match alias_parts(alias) {
                    Some((actual, version)) => actual + "@"@ + version,
                    None => reference,
                },
                None => name + "@"@ + reference,
            };
            let set = meant(lock, reference, full);
            assert(set == Set::<Text>::empty().insert(key));
            assert(set.contains(key));
        },
        _ => {},
    }
}

/// The references of the first `n` names of a table, in ascending order of the names; or the
/// first thing that is wrong with one.
pub open spec fn references_among(m: TextMap, names: Seq<Text>, n: int) -> Result<
    Seq<(Text, Text)>,
    Text,
>
    decreases n,
{
    if n <= 0 {
        Ok(Seq::empty())
    } else {
        match references_among(m, names, n - 1) {
            Err(fault) => Err(fault),
            Ok(before) => match reference_of(m[names[n - 1]]) {
                Err(fault) => Err(fault),
                Ok(reference) => Ok(before.push((names[n - 1], reference))),
            },
        }
    }
}

pub open spec fn references_of(m: TextMap) -> Result<Seq<(Text, Text)>, Text> {
    let names = ascending_list::<String>(m.dom());
    references_among(m, names, names.len() as int)
}

/// The references of a resolved package.
pub open spec fn snapshot_references(s: SnapshotModel) -> Result<Seq<(Text, Text)>, Text> {
    match references_of(s.dependencies) {
        Err(fault) => Err(fault),
        Ok(a) => match references_of(s.optional_dependencies) {
            Err(fault) => Err(fault),
            Ok(b) => Ok(a + b),
        },
    }
}

/// What is still to be looked at after a resolved package.
pub open spec fn followers(lock: LockfileModel, key: Text) -> Result<Seq<(Text, Text)>, Text> {
    if lock.snapshots.dom().contains(key) {
        snapshot_references(lock.snapshots[key])
    } else {
        Ok(Seq::empty())
    }
}

/// Follows references, the last first, until all resolved packages are known; or until one
/// cannot be followed.
pub open spec fn follow_all(lock: LockfileModel, pending: Seq<(Text, Text)>, seen: Set<Text>) -> Result<
    Set<Text>,
    Text,
>
    decreases resolved_names(lock).difference(seen).len(), pending.len(),
        when resolved_names(lock).finite()
{
    if pending.len() == 0 {
        Ok(seen)
    } else {
        let (name, reference) = pending.last();
        let rest = pending.drop_last();
        match resolution_key(lock, name, reference) {
            Err(fault) => Err(fault),
            Ok(None) => follow_all(lock, rest, seen),
            Ok(Some(key)) => if seen.contains(key) {
                follow_all(lock, rest, seen)
            } else {
                proof {
                    resolved_is_named(lock, name, reference);
                    difference_shrinks(resolved_names(lock), seen, key);
                }
                match followers(lock, key) {
                    Err(fault) => Err(fault),
                    Ok(more) => follow_all(lock, rest + more, seen.insert(key)),
                }
            },
        }
    }
}

/// The references of an importer by name, with those of the first `n` names of one more table;
/// or what is wrong: a reference, or two that disagree.
pub open spec fn with_references(start: Map<Text, Text>, m: TextMap, names: Seq<Text>, n: int) -> Result<
    Map<Text, Text>,
    Text,
>
    decreases n,
{
    if n <= 0 {
        Ok(start)
    } else {
        match with_references(start, m, names, n - 1) {
            Err(fault) => Err(fault),
            Ok(before) => {
                let name = names[n - 1];
                match reference_of(m[name]) {
                    Err(fault) => Err(fault),
                    Ok(reference) => if before.dom().contains(name) && before[name] != reference {
                        Err("importer resolves `"@ + name + "` to conflicting dependency versions"@)
                    } else {
                        Ok(before.insert(name, reference))
                    },
                }
            },
        }
    }
}

pub open spec fn with_table(start: Result<Map<Text, Text>, Text>, m: TextMap) -> Result<
    Map<Text, Text>,
    Text,
> {
    match start {
        Err(fault) => Err(fault),
        Ok(map) => {
            let names = ascending_list::<String>(m.dom());
            with_references(map, m, names, names.len() as int)
        },
    }
}

/// The references of an importer by name.
pub open spec fn direct_references(i: ImporterModel) -> Result<Map<Text, Text>, Text> {
    with_table(
        with_table(with_table(Ok(Map::empty()), i.dependencies), i.dev_dependencies),
        i.optional_dependencies,
    )
}

/// What an importer's dependencies resolve to.
#[verifier::ext_equal]
pub ghost struct ResolutionModel {
    pub direct: Map<Text, Text>,
    pub packages: TextMap,
    pub snapshots: Map<Text, SnapshotModel>,
}

/// A package entry that belongs to one of the resolved packages: under its name, or under its
/// name without peers.
pub open spec fn is_part(lock: LockfileModel, seen: Set<Text>, name: Text) -> bool {
    lock.packages.dom().contains(name) && exists|key: Text| #[trigger]
        seen.contains(key) && (name == key || name == before_first(key, '('))
}

pub open spec fn resolution(lock: LockfileModel, direct: Map<Text, Text>, seen: Set<Text>) -> ResolutionModel {
    ResolutionModel {
        direct,
        packages: Map::new(|name: Text| is_part(lock, seen, name), |name: Text| lock.packages[name]),
        snapshots: Map::new(
            |key: Text| seen.contains(key) && lock.snapshots.dom().contains(key),
            |key: Text| lock.snapshots[key],
        ),
    }
}

pub open spec fn map_pairs(m: Map<Text, Text>, names: Seq<Text>) -> Seq<(Text, Text)> {
    names.map_values(|name: Text| (name, m[name]))
}

/// What an importer's dependencies resolve to, all that they need included; or why that cannot
/// be told.
pub open spec fn effective(lock: LockfileModel, i: ImporterModel) -> Result<ResolutionModel, Text> {
    match direct_references(i) {
        Err(fault) => Err(fault),
        Ok(direct) => match follow_all(
            lock,
            map_pairs(direct, ascending_list::<String>(direct.dom())),
            Set::empty(),
        ) {
            Err(fault) => Err(fault),
            Ok(seen) => Ok(resolution(lock, direct, seen)),
        },
    }
}

/// Two resolutions are the same.
pub open spec fn resolutions_alike(a: ResolutionModel, b: ResolutionModel) -> bool {
    &&& a.direct == b.direct
    &&& tables_alike(a.packages, b.packages)
    &&& a.snapshots.dom() == b.snapshots.dom()
    &&& forall|k: Text| #[trigger]
        a.snapshots.dom().contains(k) ==> snapshots_alike(a.snapshots[k], b.snapshots[k])
}

/// Resolving `from` asks for `to`.
pub open spec fn asks_for(lock: LockfileModel) -> spec_fn(Text, Text) -> bool {
    |from: Text, to: Text| exists|i: int| #[trigger] asks_by(lock, from, i, to)
}

/// The `i`th reference of `from` is to `to`.
pub open spec fn asks_by(lock: LockfileModel, from: Text, i: int, to: Text) -> bool {
    match followers(lock, from) {
        Ok(list) => 0 <= i < list.len() && refers(lock, list[i], to),
        Err(_) => false,
    }
}

/// A reference is to the resolved package `key`.
pub open spec fn refers(lock: LockfileModel, reference: (Text, Text), key: Text) -> bool {
    match resolution_key(lock, reference.0, reference.1) {
        Ok(Some(k)) => k == key,
        _ => false,
    }
}

/// Some reference of the list is to `key`.
pub open spec fn starts_at(lock: LockfileModel, list: Seq<(Text, Text)>, key: Text) -> bool {
    exists|i: int| 0 <= i < list.len() && refers(lock, #[trigger] list[i], key)
}

/// What is known while references are followed: what a seen package asks for is seen or waits.
spec fn is_half_closed(lock: LockfileModel, pending: Seq<(Text, Text)>, seen: Set<Text>) -> bool {
    forall|from: Text, to: Text|
        seen.contains(from) && #[trigger] asks_for(lock)(from, to) ==> seen.contains(to) || starts_at(
            lock,
            pending,
            to,
        )
}

/// Following references finds all that they lead to and nothing else: the closure of what an
/// importer depends on.
pub proof fn following_finds_the_closure(lock: LockfileModel, list: Seq<(Text, Text)>, key: Text)
    requires
        resolved_names(lock).finite(),
        follow_all(lock, list, Set::empty()) is Ok,
    ensures
        follow_all(lock, list, Set::empty())->Ok_0.contains(key) == (exists|start: Text|
            starts_at(lock, list, start) && #[trigger] reaches(asks_for(lock), start, key)),
{
    let r = asks_for(lock);
    let all = follow_all(lock, list, Set::empty())->Ok_0;
    follow_all_closes(lock, list, Set::empty());
    assert forall|k: Text| #[trigger] starts_at(lock, list, k) implies can_reach(lock, list, k) by {
        reaches_self(r, k);
    }
    follow_all_stays(lock, list, Set::empty(), list);
    if all.contains(key) {
        assert(can_reach(lock, list, key));
    }
    if exists|start: Text| starts_at(lock, list, start) && #[trigger] reaches(r, start, key) {
        let start = choose|start: Text| starts_at(lock, list, start) && #[trigger] reaches(r, start, key);
        closed_holds_reached(r, all, start, key);
    }
}

proof fn follow_all_closes(lock: LockfileModel, pending: Seq<(Text, Text)>, seen: Set<Text>)
    requires
        resolved_names(lock).finite(),
        is_half_closed(lock, pending, seen),
        follow_all(lock, pending, seen) is Ok,
    ensures
        ({
            let all = follow_all(lock, pending, seen)->Ok_0;
            &&& seen.subset_of(all)
            &&& forall|key: Text| #[trigger] starts_at(lock, pending, key) ==> all.contains(key)
            &&& forall|from: Text, to: Text|
                all.contains(from) && #[trigger] asks_for(lock)(from, to) ==> all.contains(to)
        }),
    decreases resolved_names(lock).difference(seen).len(), pending.len(),
{
    if pending.len() > 0 {
        let (name, reference) = pending.last();
        let rest = pending.drop_last();
        assert forall|key: Text| #[trigger] starts_at(lock, pending, key) implies starts_at(
            lock,
            rest,
            key,
        ) || refers(lock, pending.last(), key) by {
            let i = choose|i: int| 0 <= i < pending.len() && refers(lock, #[trigger] pending[i], key);
            if i < rest.len() {
                assert(refers(lock, rest[i], key));
            }
        }
        match resolution_key(lock, name, reference) {
            Ok(Some(key)) => {
                if seen.contains(key) {
                    assert(is_half_closed(lock, rest, seen));
                    follow_all_closes(lock, rest, seen);
                } else {
                    resolved_is_named(lock, name, reference);
                    difference_shrinks(resolved_names(lock), seen, key);
                    let more = followers(lock, key)->Ok_0;
                    let next = rest + more;
                    let known = seen.insert(key);
                    assert forall|to: Text| starts_at(lock, rest, to) implies #[trigger] starts_at(
                        lock,
                        next,
                        to,
                    ) by {
                        let i = choose|i: int| 0 <= i < rest.len() && refers(lock, #[trigger] rest[i], to);
                        assert(refers(lock, next[i], to));
                    }
                    assert forall|from: Text, to: Text|
                        known.contains(from) && #[trigger] asks_for(lock)(from, to) implies known.contains(
                    to) || starts_at(lock, next, to) by {
                        if from == key {
                            let i = choose|i: int| #[trigger] asks_by(lock, key, i, to);
                            assert(next[rest.len() + i] == more[i]);
                            assert(refers(lock, next[rest.len() + i], to));
                        }
                    }
                    follow_all_closes(lock, next, known);
                    let all = follow_all(lock, next, known)->Ok_0;
                    assert(all.contains(key));
                    assert forall|to: Text| #[trigger] starts_at(lock, pending, to) implies all.contains(
                        to,
                    ) by {
                        if starts_at(lock, rest, to) {
                            assert(starts_at(lock, next, to));
                        }
                    }
                }
            },
            Ok(None) => {
                assert(is_half_closed(lock, rest, seen));
                follow_all_closes(lock, rest, seen);
            },
            Err(_) => {},
        }
    } else {
        assert forall|key: Text| !#[trigger] starts_at(lock, pending, key) by {}
    }
}

/// All that is found can be reached from `list`, where all that waits and is seen can.
proof fn follow_all_stays(
    lock: LockfileModel,
    pending: Seq<(Text, Text)>,
    seen: Set<Text>,
    list: Seq<(Text, Text)>,
)
    requires
        resolved_names(lock).finite(),
        follow_all(lock, pending, seen) is Ok,
        forall|key: Text| #[trigger] seen.contains(key) ==> can_reach(lock, list, key),
        forall|key: Text| #[trigger] starts_at(lock, pending, key) ==> can_reach(lock, list, key),
    ensures
        forall|key: Text| #[trigger]
            follow_all(lock, pending, seen)->Ok_0.contains(key) ==> can_reach(lock, list, key),
    decreases resolved_names(lock).difference(seen).len(), pending.len(),
{
    if pending.len() > 0 {
        let (name, reference) = pending.last();
        let rest = pending.drop_last();
        assert forall|key: Text| #[trigger] starts_at(lock, rest, key) implies can_reach(
            lock,
            list,
            key,
        ) by {
            let i = choose|i: int| 0 <= i < rest.len() && refers(lock, #[trigger] rest[i], key);
            assert(refers(lock, pending[i], key));
            assert(starts_at(lock, pending, key));
        }
        match resolution_key(lock, name, reference) {
            Ok(Some(key)) => {
                assert(refers(lock, pending[pending.len() - 1], key));
                assert(starts_at(lock, pending, key));
                if seen.contains(key) {
                    follow_all_stays(lock, rest, seen, list);
                } else {
                    resolved_is_named(lock, name, reference);
                    difference_shrinks(resolved_names(lock), seen, key);
                    let more = followers(lock, key)->Ok_0;
                    let next = rest + more;
                    assert forall|to: Text| #[trigger] starts_at(lock, next, to) implies can_reach(
                        lock,
                        list,
                        to,
                    ) by {
                        let i = choose|i: int| 0 <= i < next.len() && refers(lock, #[trigger] next[i], to);
                        if i < rest.len() {
                            assert(refers(lock, rest[i], to));
                            assert(starts_at(lock, rest, to));
                        } else {
                            assert(asks_by(lock, key, i - rest.len(), to));
                            assert(asks_for(lock)(key, to));
                            let start = choose|start: Text|
                                starts_at(lock, list, start) && #[trigger] reaches(
                                    asks_for(lock),
                                    start,
                                    key,
                                );
                            reaches_step(asks_for(lock), start, key, to);
                        }
                    }
                    follow_all_stays(lock, next, seen.insert(key), list);
                }
            },
            Ok(None) => {
                follow_all_stays(lock, rest, seen, list);
            },
            Err(_) => {},
        }
    }
}

spec fn can_reach(lock: LockfileModel, list: Seq<(Text, Text)>, key: Text) -> bool {
    exists|start: Text| starts_at(lock, list, start) && #[trigger] reaches(asks_for(lock), start, key)
}

fn find_fault(entries: &Vec<(Data, Data)>) -> (r: Option<String>)
    ensures
        r.model() == field_fault(entry_models(entries@), 0),
{
    let ghost all = entry_models(entries@);
    proof {
        entry_models_at(entries@);
    }
    let mut i: usize = 0;
    while i < entries.len()
        invariant
            i <= entries.len(),
            all == entry_models(entries@),
            all.len() == entries.len(),
            forall|k: int|
                0 <= k < entries.len() ==> all[k] == ((#[trigger] entries@[k]).0@, entries@[k].1@),
            field_fault(all, i as int) == field_fault(all, 0),
        decreases entries.len() - i,
    {
        match entries[i].0.as_str() {
            None => {
                return Some("a pnpm dependency reference has a non-string field".to_owned());
            },
            Some(key) => {
                if !same(key, "specifier") && !same(key, "version") {
                    return Some(
                        join3("a pnpm dependency reference contains unmodeled field `", key, "`"),
                    );
                }
            },
        }
        i += 1;
    }
    None
}

pub open spec fn text_result(r: Result<String, String>) -> Result<Text, Text> {
    match r {
        Ok(t) => Ok(t@),
        Err(e) => Err(e@),
    }
}

/// The version that a dependency refers to.
fn read_reference(d: &Data) -> (r: Result<String, String>)
    ensures
        text_result(r) == reference_of(d@),
{
    match d.as_str() {
        Some(text) => {
            return Ok(text.to_owned());
        },
        None => {},
    }
    match d.as_table() {
        None => Err("a pnpm dependency reference has an unsupported shape".to_owned()),
        Some(entries) => match find_fault(entries) {
            Some(fault) => Err(fault),
            None => {
                assert(under(d@, "version"@) == (match entry_named(
                    entry_models(entries@),
                    "version"@,
                ) {
                    Some(i) => Some(entry_models(entries@)[i].1),
                    None => None,
                }));
                match d.get("version") {
                    Some(value) => match value.as_str() {
                        Some(text) => Ok(text.to_owned()),
                        None => Err(
                            "a pnpm dependency reference has no resolved version".to_owned(),
                        ),
                    },
                    None => Err("a pnpm dependency reference has no resolved version".to_owned()),
                }
            },
        },
    }
}

fn add_meant(lock: &PnpmLockfile, candidate: &String, out: &mut KeySet<String>)
    ensures
        forall|key: Text| #[trigger]
            final(out)@.contains(key) == (old(out)@.contains(key) || is_meant(lock@, candidate@, key)),
{
    let ghost start = out@;
    let ghost model = lock@;
    assert(model.snapshots.dom() =~= lock.snapshots@.dom());
    assert(model.packages.dom() =~= lock.packages@.dom());
    if lock.snapshots.contains_key(candidate) {
        out.insert(candidate.clone());
        return;
    }
    let prefix = join2(candidate.as_str(), "(");
    let n = lock.snapshots.len();
    let ghost keys = lock.snapshots.keys();
    let mut found: bool = false;
    let mut i: usize = 0;
    while i < n
        invariant
            i <= n,
            n == keys.len(),
            keys == lock.snapshots.keys(),
            prefix@ == candidate@ + "("@,
            found == (exists|k: int| 0 <= k < i && prefix@.is_prefix_of(#[trigger] keys[k])),
            forall|key: Text| #[trigger]
                out@.contains(key) == (start.contains(key) || exists|k: int|
                    0 <= k < i && #[trigger] keys[k] == key && prefix@.is_prefix_of(key)),
        decreases n - i,
    {
        let ghost before = out@;
        let key = lock.snapshots.key_at(i);
        let fits = starts_with(key.as_str(), prefix.as_str());
        if fits {
            out.insert(key.clone());
            found = true;
        }
        proof {
            assert forall|x: Text| #[trigger]
                out@.contains(x) == (start.contains(x) || exists|k: int|
                    0 <= k < i + 1 && #[trigger] keys[k] == x && prefix@.is_prefix_of(x)) by {
                assert(before.contains(x) == (start.contains(x) || exists|k: int|
                    0 <= k < i && #[trigger] keys[k] == x && prefix@.is_prefix_of(x)));
                if fits && x == key@ {
                    assert(keys[i as int] == x);
                }
            }
            if fits {
                assert(prefix@.is_prefix_of(keys[i as int]));
            }
        }
        i += 1;
    }
    proof {
        assert forall|key: Text| #[trigger]
            is_peer(model, candidate@, key) == (exists|k: int|
                0 <= k < n && #[trigger] keys[k] == key && prefix@.is_prefix_of(key)) by {
            if is_peer(model, candidate@, key) {
                assert(keys.to_set().contains(key));
                let k = choose|k: int| 0 <= k < keys.len() && keys[k] == key;
                assert(keys[k] == key);
            }
            if exists|k: int| 0 <= k < n && #[trigger] keys[k] == key && prefix@.is_prefix_of(key) {
                assert(keys.to_set().contains(key));
            }
        }
        if found {
            let k = choose|k: int| 0 <= k < n && prefix@.is_prefix_of(#[trigger] keys[k]);
            assert(is_peer(model, candidate@, keys[k]));
        }
        assert(found == has_peers(model, candidate@)) by {
            if has_peers(model, candidate@) {
                let key = choose|key: Text| is_peer(model, candidate@, key);
                let k = choose|k: int|
                    0 <= k < n && #[trigger] keys[k] == key && prefix@.is_prefix_of(key);
                assert(prefix@.is_prefix_of(keys[k]));
            }
        }
    }
    if !found && lock.packages.contains_key(candidate) {
        let ghost before = out@;
        out.insert(candidate.clone());
        proof {
            assert forall|key: Text| #[trigger] before.contains(key) == start.contains(key) by {
                assert(is_peer(model, candidate@, key) == (exists|k: int|
                    0 <= k < n && #[trigger] keys[k] == key && prefix@.is_prefix_of(key)));
            }
        }
    }
    proof {
        assert forall|key: Text| #[trigger]
            out@.contains(key) == (start.contains(key) || is_meant(model, candidate@, key)) by {
            assert(is_peer(model, candidate@, key) == (exists|k: int|
                0 <= k < n && #[trigger] keys[k] == key && prefix@.is_prefix_of(key)));
        }
    }
}

pub open spec fn key_result(r: Result<Option<String>, String>) -> Result<Option<Text>, Text> {
    match r {
        Ok(t) => Ok(t.model()),
        Err(e) => Err(e@),
    }
}

fn take_only(set: &KeySet<String>, name: &str, reference: &str) -> (r: Result<Option<String>, String>)
    ensures
        key_result(r) == only(set@, name@, reference@),
{
    let n = set.len();
    let ghost list = set.list();
    if n == 0 {
        let mut out = join3("could not resolve pnpm dependency `", name, "` at `");
        out.append(reference);
        out.append("`");
        return Err(out);
    }
    if n == 1 {
        let key = set.at(0).clone();
        proof {
            assert(set@ =~= Set::<Text>::empty().insert(key@)) by {
                assert forall|x: Text| set@.contains(x) == (x == key@) by {
                    if set@.contains(x) {
                        let i = choose|i: int| 0 <= i < list.len() && list[i] == x;
                        assert(list[i] == x);
                    }
                }
            }
            let other = choose|k: Text| set@ == Set::<Text>::empty().insert(k);
            assert(set@ == Set::<Text>::empty().insert(other));
            assert(set@.contains(other));
        }
        return Ok(Some(key));
    }
    proof {
        assert(set@.contains(list[0])) by {
            assert(list.contains(list[0]));
        }
        assert(set@.contains(list[1])) by {
            assert(list.contains(list[1]));
        }
        if list[0] == list[1] {
            crate::collections::ascending_is_distinct::<String>(list, 0, 1);
        }
        assert forall|key: Text| set@ != Set::<Text>::empty().insert(key) by {
            if set@ == Set::<Text>::empty().insert(key) {
                assert(list[0] == key);
                assert(list[1] == key);
            }
        }
    }
    let mut out = join3("pnpm dependency `", name, "` at `");
    out.append(reference);
    out.append("` resolves ambiguously");
    Err(out)
}

/// The resolved package that a dependency refers to.
pub fn pnpm_resolution_key(lock: &PnpmLockfile, name: &str, reference: &str) -> (r: Result<
    Option<String>,
    String,
>)
    ensures
        key_result(r) == resolution_key(lock@, name@, reference@),
{
    if starts_with(reference, "link:") || starts_with(reference, "workspace:") {
        return Ok(None);
    }
    if starts_with(reference, "file:") || starts_with(reference, "portal:") {
        return Err(join3("local dependency reference `", reference, "` is not modeled"));
    }
    let full: String = match strip_prefix(reference, "npm:") {
        Some(alias) => {
            let chars = chars_of(alias.as_str());
            let at = find_last(&chars, '@');
            if at <= 1 {
                return Err(join3("pnpm alias `", reference, "` is ambiguous"));
            }
            let actual = text_between(&chars, 0, at - 1);
            let version = text_between(&chars, at, chars.len());
            proof {
                assert(actual@ =~= alias@.take(at - 1));
                assert(version@ =~= alias@.skip(at as int));
            }
            join3(actual.as_str(), "@", version.as_str())
        },
        None => join3(name, "@", reference),
    };
    let mut matching: KeySet<String> = KeySet::new();
    add_meant(lock, &reference.to_owned(), &mut matching);
    add_meant(lock, &full, &mut matching);
    assert(matching@ =~= meant(lock@, reference@, full@));
    take_only(&matching, name, reference)
}

pub open spec fn pair_models(list: Seq<(String, String)>) -> Seq<(Text, Text)> {
    list.map_values(|p: (String, String)| (p.0@, p.1@))
}

proof fn references_stay_lost(m: TextMap, names: Seq<Text>, n: int)
    requires
        0 <= n <= names.len(),
        references_among(m, names, n) is Err,
    ensures
        references_among(m, names, names.len() as int) == references_among(m, names, n),
    decreases names.len() - n,
{
    if n < names.len() {
        references_stay_lost(m, names, n + 1);
    }
}

fn list_references(m: &KeyMap<String, Data>) -> (r: Result<Vec<(String, String)>, String>)
    ensures
        match r {
            Ok(list) => references_of(data_map(m@)) == Ok::<Seq<(Text, Text)>, Text>(
                pair_models(list@),
            ),
            Err(fault) => references_of(data_map(m@)) == Err::<Seq<(Text, Text)>, Text>(fault@),
        },
{
    let ghost map = data_map(m@);
    let n = m.len();
    let ghost names = m.keys();
    proof {
        assert(map.dom() =~= m@.dom());
        ascending_list_is::<String>(names, map.dom());
    }
    let mut out: Vec<(String, String)> = Vec::new();
    let mut i: usize = 0;
    assert(pair_models(out@) =~= Seq::empty());
    while i < n
        invariant
            i <= n,
            n == names.len(),
            names == m.keys(),
            map == data_map(m@),
            ascending_list::<String>(map.dom()) == names,
            references_among(map, names, i as int) == Ok::<Seq<(Text, Text)>, Text>(
                pair_models(out@),
            ),
        decreases n - i,
    {
        let d = m.value_at(i);
        assert(map[names[i as int]] == d@);
        match read_reference(d) {
            Ok(reference) => {
                let ghost before = pair_models(out@);
                let item = (m.key_at(i).clone(), reference);
                let ghost x = (item.0@, item.1@);
                out.push(item);
                assert(pair_models(out@) =~= before.push(x));
            },
            Err(fault) => {
                proof {
                    references_stay_lost(map, names, i + 1);
                }
                return Err(fault);
            },
        }
        i += 1;
    }
    Ok(out)
}

fn list_followers(lock: &PnpmLockfile, key: &String) -> (r: Result<Vec<(String, String)>, String>)
    ensures
        match r {
            Ok(list) => followers(lock@, key@) == Ok::<Seq<(Text, Text)>, Text>(pair_models(list@)),
            Err(fault) => followers(lock@, key@) == Err::<Seq<(Text, Text)>, Text>(fault@),
        },
{
    assert(lock@.snapshots.dom() =~= lock.snapshots@.dom());
    match lock.snapshots.get(key) {
        Some(snapshot) => {
            assert(lock@.snapshots[key@] == snapshot@);
            let mut all = match list_references(&snapshot.dependencies) {
                Ok(list) => list,
                Err(fault) => {
                    return Err(fault);
                },
            };
            let mut more = match list_references(&snapshot.optional_dependencies) {
                Ok(list) => list,
                Err(fault) => {
                    return Err(fault);
                },
            };
            let ghost a = pair_models(all@);
            let ghost b = pair_models(more@);
            all.append(&mut more);
            assert(pair_models(all@) =~= a + b);
            Ok(all)
        },
        None => {
            let out: Vec<(String, String)> = Vec::new();
            assert(pair_models(out@) =~= Seq::empty());
            Ok(out)
        },
    }
}

fn follow_references(lock: &PnpmLockfile, start: Vec<(String, String)>) -> (r: Result<
    KeySet<String>,
    String,
>)
    ensures
        match r {
            Ok(seen) => follow_all(lock@, pair_models(start@), Set::empty()) == Ok::<Set<Text>, Text>(
                seen@,
            ),
            Err(fault) => follow_all(lock@, pair_models(start@), Set::empty()) == Err::<
                Set<Text>,
                Text,
            >(fault@),
        },
{
    let ghost model = lock@;
    let ghost whole = follow_all(model, pair_models(start@), Set::empty());
    let n = lock.snapshots.len();
    let k = lock.packages.len();
    proof {
        assert(model.snapshots.dom() =~= lock.snapshots@.dom());
        assert(model.packages.dom() =~= lock.packages@.dom());
        assert(resolved_names(model).finite());
    }
    let mut pending = start;
    let mut seen: KeySet<String> = KeySet::new();
    while pending.len() > 0
        invariant
            model == lock@,
            resolved_names(model).finite(),
            whole == follow_all(model, pair_models(start@), Set::empty()),
            follow_all(model, pair_models(pending@), seen@) == whole,
        decreases resolved_names(model).difference(seen@).len(), pending.len(),
    {
        let ghost waiting = pair_models(pending@);
        let (name, reference) = pending.pop().unwrap();
        proof {
            assert(pair_models(pending@) =~= waiting.drop_last());
            assert(waiting.last() == (name@, reference@));
            resolved_is_named(model, name@, reference@);
        }
        match pnpm_resolution_key(lock, name.as_str(), reference.as_str()) {
            Err(fault) => {
                return Err(fault);
            },
            Ok(None) => {},
            Ok(Some(key)) => {
                if !seen.contains(&key) {
                    proof {
                        difference_shrinks(resolved_names(model), seen@, key@);
                    }
                    let mut more = match list_followers(lock, &key) {
                        Ok(more) => more,
                        Err(fault) => {
                            return Err(fault);
                        },
                    };
                    let ghost a = pair_models(pending@);
                    let ghost b = pair_models(more@);
                    pending.append(&mut more);
                    assert(pair_models(pending@) =~= a + b);
                    seen.insert(key);
                }
            },
        }
    }
    assert(pair_models(pending@) =~= Seq::empty());
    Ok(seen)
}

proof fn with_references_stay_lost(start: Map<Text, Text>, m: TextMap, names: Seq<Text>, n: int)
    requires
        0 <= n <= names.len(),
        with_references(start, m, names, n) is Err,
    ensures
        with_references(start, m, names, names.len() as int) == with_references(start, m, names, n),
    decreases names.len() - n,
{
    if n < names.len() {
        with_references_stay_lost(start, m, names, n + 1);
    }
}

pub open spec fn plain_map(m: Map<Text, String>) -> Map<Text, Text> {
    m.map_values(|s: String| s@)
}

fn add_references(start: KeyMap<String, String>, m: &KeyMap<String, Data>) -> (r: Result<
    KeyMap<String, String>,
    String,
>)
    ensures
        match r {
            Ok(map) => with_table(Ok(plain_map(start@)), data_map(m@)) == Ok::<Map<Text, Text>, Text>(
                plain_map(map@),
            ),
            Err(fault) => with_table(Ok(plain_map(start@)), data_map(m@)) == Err::<
                Map<Text, Text>,
                Text,
            >(fault@),
        },
{
    let ghost map = data_map(m@);
    let ghost first = plain_map(start@);
    let n = m.len();
    let ghost names = m.keys();
    proof {
        assert(map.dom() =~= m@.dom());
        ascending_list_is::<String>(names, map.dom());
    }
    let mut out = start;
    let mut i: usize = 0;
    while i < n
        invariant
            i <= n,
            n == names.len(),
            names == m.keys(),
            map == data_map(m@),
            first == plain_map(start@),
            ascending_list::<String>(map.dom()) == names,
            with_references(first, map, names, i as int) == Ok::<Map<Text, Text>, Text>(
                plain_map(out@),
            ),
        decreases n - i,
    {
        let d = m.value_at(i);
        let name = m.key_at(i);
        assert(map[names[i as int]] == d@);
        let ghost before = plain_map(out@);
        match read_reference(d) {
            Ok(reference) => {
                let conflicts = match out.get(name) {
                    Some(earlier) => *earlier != reference,
                    None => false,
                };
                assert(conflicts == (before.dom().contains(name@) && before[name@] != reference@));
                if conflicts {
                    proof {
                        with_references_stay_lost(first, map, names, i + 1);
                    }
                    return Err(
                        join3(
                            "importer resolves `",
                            name.as_str(),
                            "` to conflicting dependency versions",
                        ),
                    );
                }
                let ghost x = reference@;
                out.insert(name.clone(), reference);
                assert(plain_map(out@) =~= before.insert(name@, x));
            },
            Err(fault) => {
                proof {
                    with_references_stay_lost(first, map, names, i + 1);
                }
                return Err(fault);
            },
        }
        i += 1;
    }
    Ok(out)
}

fn list_direct(importer: &PnpmImporter) -> (r: Result<KeyMap<String, String>, String>)
    ensures
        match r {
            Ok(map) => direct_references(importer@) == Ok::<Map<Text, Text>, Text>(plain_map(map@)),
            Err(fault) => direct_references(importer@) == Err::<Map<Text, Text>, Text>(fault@),
        },
{
    let none: KeyMap<String, String> = KeyMap::new();
    assert(plain_map(none@) =~= Map::empty());
    match add_references(none, &importer.dependencies) {
        Err(fault) => Err(fault),
        Ok(a) => match add_references(a, &importer.dev_dependencies) {
            Err(fault) => Err(fault),
            Ok(b) => add_references(b, &importer.optional_dependencies),
        },
    }
}

/// What an importer's dependencies resolve to: the references, and the names of the resolved
/// packages that they lead to.
pub struct EffectivePnpmResolution {
    pub direct: KeyMap<String, String>,
    pub seen: KeySet<String>,
}

fn list_pairs(m: &KeyMap<String, String>) -> (r: Vec<(String, String)>)
    ensures
        pair_models(r@) == map_pairs(
            plain_map(m@),
            ascending_list::<String>(plain_map(m@).dom()),
        ),
{
    let ghost map = plain_map(m@);
    let n = m.len();
    let ghost names = m.keys();
    proof {
        assert(map.dom() =~= m@.dom());
        ascending_list_is::<String>(names, map.dom());
    }
    let mut out: Vec<(String, String)> = Vec::new();
    let mut i: usize = 0;
    while i < n
        invariant
            i <= n,
            n == names.len(),
            names == m.keys(),
            map == plain_map(m@),
            out.len() == i,
            forall|k: int|
                0 <= k < i ==> (#[trigger] out@[k]).0@ == names[k] && out@[k].1@ == map[names[k]],
        decreases n - i,
    {
        let value = m.value_at(i);
        assert(map[names[i as int]] == value@);
        out.push((m.key_at(i).clone(), value.clone()));
        i += 1;
    }
    assert(pair_models(out@) =~= map_pairs(map, names));
    out
}

/// What an importer's dependencies resolve to.
pub fn effective_pnpm_resolution(lock: &PnpmLockfile, importer: &PnpmImporter) -> (r: Result<
    EffectivePnpmResolution,
    String,
>)
    ensures
        match r {
            Ok(e) => effective(lock@, importer@) == Ok::<ResolutionModel, Text>(
                resolution(lock@, plain_map(e.direct@), e.seen@),
            ),
            Err(fault) => effective(lock@, importer@) == Err::<ResolutionModel, Text>(fault@),
        },
{
    let direct = match list_direct(importer) {
        Ok(direct) => direct,
        Err(fault) => {
            return Err(fault);
        },
    };
    let start = list_pairs(&direct);
    match follow_references(lock, start) {
        Ok(seen) => Ok(EffectivePnpmResolution { direct, seen }),
        Err(fault) => Err(fault),
    }
}

fn same_direct(a: &KeyMap<String, String>, b: &KeyMap<String, String>) -> (r: bool)
    ensures
        r == (plain_map(a@) == plain_map(b@)),
{
    let ghost x = plain_map(a@);
    let ghost y = plain_map(b@);
    let n = a.len();
    let m = b.len();
    let ghost keys = a.keys();
    let ghost others = b.keys();
    proof {
        assert(x.dom() =~= a@.dom());
        assert(y.dom() =~= b@.dom());
    }
    if n != m {
        proof {
            if x == y {
                crate::collections::ascending_is_unique::<String>(keys, others);
            }
        }
        return false;
    }
    let mut i: usize = 0;
    while i < n
        invariant
            i <= n,
            n == keys.len(),
            n == others.len(),
            keys == a.keys(),
            others == b.keys(),
            x == plain_map(a@),
            y == plain_map(b@),
            x.dom() == keys.to_set(),
            y.dom() == others.to_set(),
            crate::collections::ascending::<String>(keys),
            crate::collections::ascending::<String>(others),
            forall|k: int|
                0 <= k < i ==> #[trigger] keys[k] == others[k] && x[keys[k]] == y[others[k]],
        decreases n - i,
    {
        let p = a.value_at(i);
        let q = b.value_at(i);
        assert(x[keys[i as int]] == p@);
        assert(y[others[i as int]] == q@);
        if *a.key_at(i) != *b.key_at(i) || *p != *q {
            proof {
                if x == y {
                    crate::collections::ascending_is_unique::<String>(keys, others);
                    assert(keys[i as int] == others[i as int]);
                }
            }
            return false;
        }
        i += 1;
    }
    proof {
        assert(keys =~= others);
        assert forall|k: Text| #[trigger] x.dom().contains(k) implies x[k] == y[k] by {
            let j = choose|j: int| 0 <= j < keys.len() && keys[j] == k;
            assert(keys[j] == others[j]);
        }
        assert(x =~= y);
    }
    true
}

/// The package entries that belong to resolved packages.
fn list_parts(lock: &PnpmLockfile, seen: &KeySet<String>) -> (r: KeySet<String>)
    ensures
        forall|name: Text| #[trigger] r@.contains(name) == is_part(lock@, seen@, name),
{
    let ghost model = lock@;
    assert(model.packages.dom() =~= lock.packages@.dom());
    let n = seen.len();
    let ghost list = seen.list();
    let mut out: KeySet<String> = KeySet::new();
    let mut i: usize = 0;
    while i < n
        invariant
            i <= n,
            n == list.len(),
            list == seen.list(),
            model == lock@,
            model.packages.dom() == lock.packages@.dom(),
            forall|name: Text| #[trigger]
                out@.contains(name) == (model.packages.dom().contains(name) && exists|k: int|
                    0 <= k < i && (name == #[trigger] list[k] || name == before_first(list[k], '('))),
        decreases n - i,
    {
        let ghost before = out@;
        let key = seen.at(i);
        let short = take_before(key.as_str(), '(');
        let ghost s = short@;
        if lock.packages.contains_key(key) {
            out.insert(key.clone());
        }
        if lock.packages.contains_key(&short) {
            out.insert(short);
        }
        proof {
            assert forall|name: Text| #[trigger]
                out@.contains(name) == (model.packages.dom().contains(name) && exists|k: int|
                    0 <= k < i + 1 && (name == #[trigger] list[k] || name == before_first(
                        list[k],
                        '(',
                    ))) by {
                assert(before.contains(name) == (model.packages.dom().contains(name) && exists|k: int|
                    0 <= k < i && (name == #[trigger] list[k] || name == before_first(list[k], '('))));
                assert(list[i as int] == key@);
            }
        }
        i += 1;
    }
    proof {
        assert forall|name: Text| #[trigger] out@.contains(name) == is_part(model, seen@, name) by {
            if is_part(model, seen@, name) {
                let key = choose|key: Text| #[trigger]
                    seen@.contains(key) && (name == key || name == before_first(key, '('));
                let k = choose|k: int| 0 <= k < list.len() && list[k] == key;
                assert(list[k] == key);
            }
            if out@.contains(name) {
                let k = choose|k: int|
                    0 <= k < n && (name == #[trigger] list[k] || name == before_first(list[k], '('));
                assert(list.contains(list[k]));
                assert(seen@.contains(list[k]));
            }
        }
    }
    out
}

fn same_parts(
    lock_a: &PnpmLockfile,
    seen_a: &KeySet<String>,
    lock_b: &PnpmLockfile,
    seen_b: &KeySet<String>,
    Ghost(da): Ghost<Map<Text, Text>>,
    Ghost(db): Ghost<Map<Text, Text>>,
) -> (r: bool)
    ensures
        r == tables_alike(
            resolution(lock_a@, da, seen_a@).packages,
            resolution(lock_b@, db, seen_b@).packages,
        ),
{
    let ghost x = resolution(lock_a@, da, seen_a@).packages;
    let ghost y = resolution(lock_b@, db, seen_b@).packages;
    let a = list_parts(lock_a, seen_a);
    let b = list_parts(lock_b, seen_b);
    proof {
        assert(x.dom() =~= a@);
        assert(y.dom() =~= b@);
        assert(lock_a@.packages.dom() =~= lock_a.packages@.dom());
        assert(lock_b@.packages.dom() =~= lock_b.packages@.dom());
    }
    if !same_sets(&a, &b) {
        return false;
    }
    let n = a.len();
    let ghost list = a.list();
    let mut i: usize = 0;
    while i < n
        invariant
            i <= n,
            n == list.len(),
            list == a.list(),
            x == resolution(lock_a@, da, seen_a@).packages,
            y == resolution(lock_b@, db, seen_b@).packages,
            x.dom() == a@,
            y.dom() == a@,
            lock_a@.packages.dom() == lock_a.packages@.dom(),
            lock_b@.packages.dom() == lock_b.packages@.dom(),
            forall|k: int| 0 <= k < i ==> alike_at(x, y, #[trigger] list[k]),
        decreases n - i,
    {
        let name = a.at(i);
        assert(x.dom().contains(name@) && y.dom().contains(name@));
        assert(is_part(lock_a@, seen_a@, name@));
        assert(is_part(lock_b@, seen_b@, name@));
        let p = lock_a.packages.get(name).unwrap();
        let q = lock_b.packages.get(name).unwrap();
        assert(x[name@] == p@ && y[name@] == q@);
        if !crate::lookup::same_data(p, q) {
            return false;
        }
        assert(alike_at(x, y, list[i as int]));
        i += 1;
    }
    proof {
        assert forall|k: Text| #[trigger] x.dom().contains(k) implies crate::lookup::alike(x[k], y[k]) by {
            let j = choose|j: int| 0 <= j < list.len() && list[j] == k;
            assert(alike_at(x, y, list[j]));
        }
    }
    true
}

spec fn alike_at(x: TextMap, y: TextMap, k: Text) -> bool {
    crate::lookup::alike(x[k], y[k])
}

fn same_sets(a: &KeySet<String>, b: &KeySet<String>) -> (r: bool)
    ensures
        r == (a@ == b@),
{
    let n = a.len();
    let m = b.len();
    let ghost x = a.list();
    let ghost y = b.list();
    if n != m {
        proof {
            if a@ == b@ {
                crate::collections::ascending_is_unique::<String>(x, y);
            }
        }
        return false;
    }
    let mut i: usize = 0;
    while i < n
        invariant
            i <= n,
            n == x.len(),
            n == y.len(),
            x == a.list(),
            y == b.list(),
            crate::collections::ascending::<String>(x),
            crate::collections::ascending::<String>(y),
            forall|k: int| 0 <= k < i ==> #[trigger] x[k] == y[k],
        decreases n - i,
    {
        if *a.at(i) != *b.at(i) {
            proof {
                if a@ == b@ {
                    crate::collections::ascending_is_unique::<String>(x, y);
                    assert(x[i as int] == y[i as int]);
                }
            }
            return false;
        }
        i += 1;
    }
    assert(x =~= y);
    true
}

fn list_seen_snapshots(lock: &PnpmLockfile, seen: &KeySet<String>) -> (r: KeySet<String>)
    ensures
        forall|k: Text| #[trigger]
            r@.contains(k) == (seen@.contains(k) && lock@.snapshots.dom().contains(k)),
{
    let n = seen.len();
    let ghost list = seen.list();
    assert(lock@.snapshots.dom() =~= lock.snapshots@.dom());
    let mut out: KeySet<String> = KeySet::new();
    let mut i: usize = 0;
    while i < n
        invariant
            i <= n,
            n == list.len(),
            list == seen.list(),
            lock@.snapshots.dom() == lock.snapshots@.dom(),
            forall|k: Text| #[trigger]
                out@.contains(k) == (lock@.snapshots.dom().contains(k) && exists|j: int|
                    0 <= j < i && #[trigger] list[j] == k),
        decreases n - i,
    {
        let ghost before = out@;
        let key = seen.at(i);
        if lock.snapshots.contains_key(key) {
            out.insert(key.clone());
        }
        proof {
            assert forall|k: Text| #[trigger]
                out@.contains(k) == (lock@.snapshots.dom().contains(k) && exists|j: int|
                    0 <= j < i + 1 && #[trigger] list[j] == k) by {
                assert(before.contains(k) == (lock@.snapshots.dom().contains(k) && exists|j: int|
                    0 <= j < i && #[trigger] list[j] == k));
                if k == key@ {
                    assert(list[i as int] == k);
                }
            }
        }
        i += 1;
    }
    proof {
        assert forall|k: Text| #[trigger]
            out@.contains(k) == (seen@.contains(k) && lock@.snapshots.dom().contains(k)) by {
            if seen@.contains(k) {
                let j = choose|j: int| 0 <= j < list.len() && list[j] == k;
                assert(list[j] == k);
            }
            if exists|j: int| 0 <= j < n && #[trigger] list[j] == k {
                assert(list.contains(k));
            }
        }
    }
    out
}

spec fn snapshots_alike_at(
    x: Map<Text, SnapshotModel>,
    y: Map<Text, SnapshotModel>,
    k: Text,
) -> bool {
    snapshots_alike(x[k], y[k])
}

/// Whether two resolutions are the same.
pub fn same_resolutions(
    lock_a: &PnpmLockfile,
    a: &EffectivePnpmResolution,
    lock_b: &PnpmLockfile,
    b: &EffectivePnpmResolution,
) -> (r: bool)
    ensures
        r == resolutions_alike(
            resolution(lock_a@, plain_map(a.direct@), a.seen@),
            resolution(lock_b@, plain_map(b.direct@), b.seen@),
        ),
{
    let ghost da = plain_map(a.direct@);
    let ghost db = plain_map(b.direct@);
    let ghost x = resolution(lock_a@, da, a.seen@).snapshots;
    let ghost y = resolution(lock_b@, db, b.seen@).snapshots;
    if !same_direct(&a.direct, &b.direct) {
        return false;
    }
    if !same_parts(lock_a, &a.seen, lock_b, &b.seen, Ghost(da), Ghost(db)) {
        return false;
    }
    let p = list_seen_snapshots(lock_a, &a.seen);
    let q = list_seen_snapshots(lock_b, &b.seen);
    proof {
        assert(x.dom() =~= p@);
        assert(y.dom() =~= q@);
        assert(lock_a@.snapshots.dom() =~= lock_a.snapshots@.dom());
        assert(lock_b@.snapshots.dom() =~= lock_b.snapshots@.dom());
    }
    if !same_sets(&p, &q) {
        return false;
    }
    let n = p.len();
    let ghost list = p.list();
    let mut i: usize = 0;
    while i < n
        invariant
            i <= n,
            n == list.len(),
            list == p.list(),
            x == resolution(lock_a@, da, a.seen@).snapshots,
            y == resolution(lock_b@, db, b.seen@).snapshots,
            x.dom() == p@,
            y.dom() == p@,
            lock_a@.snapshots.dom() == lock_a.snapshots@.dom(),
            lock_b@.snapshots.dom() == lock_b.snapshots@.dom(),
            forall|k: int| 0 <= k < i ==> snapshots_alike_at(x, y, #[trigger] list[k]),
        decreases n - i,
    {
        let key = p.at(i);
        assert(x.dom().contains(key@) && y.dom().contains(key@));
        let s = lock_a.snapshots.get(key).unwrap();
        let t = lock_b.snapshots.get(key).unwrap();
        assert(x[key@] == s@ && y[key@] == t@);
        if !same_snapshots(s, t) {
            return false;
        }
        assert(snapshots_alike_at(x, y, list[i as int]));
        i += 1;
    }
    proof {
        assert forall|k: Text| #[trigger] x.dom().contains(k) implies snapshots_alike(x[k], y[k]) by {
            let j = choose|j: int| 0 <= j < list.len() && list[j] == k;
            assert(snapshots_alike_at(x, y, list[j]));
        }
    }
    true
}

} // verus!
