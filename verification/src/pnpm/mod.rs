//! What a change of pnpm's lockfile means for the packages of a workspace.
pub mod laws;
pub mod lockfile;
pub mod resolution;

use vstd::prelude::*;

use crate::collections::{ascending_list, ascending_list_is, KeyMap, KeySet};
use crate::graph::resolve::{normal, normalize_path, DiskFacts};
use crate::lookup::{alike, values_are_like_themselves};
use crate::order::Key;
use crate::package_manager::LockfileImpact;
use crate::path::{shown, FilePath};
use crate::pnpm::lockfile::{
    data_map, is_pnpm_v9, is_v9, read_model, revision_model, same_tables, snapshots_alike,
    tables_alike, ImporterModel, LockfileModel, PnpmImporter, PnpmLockfile, ReadModel, Text,
    TextMap,
};
use crate::pnpm::resolution::{
    effective, effective_pnpm_resolution, plain_map, resolution, resolutions_alike,
    same_resolutions, ResolutionModel,
};
use crate::text::{join2, join3, same};
use crate::workspace::owner::Path;
use crate::workspace::Package;

verus! {

/// What an importer asks for; nothing where the lockfile does not know it.
pub open spec fn importer_at(lock: LockfileModel, name: Text) -> ImporterModel {
    if lock.importers.dom().contains(name) {
        lock.importers[name]
    } else {
        ImporterModel {
            dependencies: Map::empty(),
            dev_dependencies: Map::empty(),
            optional_dependencies: Map::empty(),
            other: Map::empty(),
        }
    }
}

/// The name under which a lockfile lists the importer in a directory below the root.
pub open spec fn importer_name(root: Path, dir: Path) -> Option<Text> {
    if !root.is_prefix_of(dir) {
        None
    } else if dir.len() == root.len() {
        Some("."@)
    } else {
        Some(shown(dir.skip(root.len() as int)))
    }
}

/// The packages among the first `n` by the names of their importers.
pub open spec fn package_importers(disk: DiskFacts, root: Path, packages: Seq<Package>, n: int) -> Map<
    Text,
    Text,
>
    decreases n,
{
    if n <= 0 {
        Map::empty()
    } else {
        let before = package_importers(disk, root, packages, n - 1);
        match importer_name(normal(disk, root), normal(disk, packages[n - 1].dir@)) {
            Some(name) => before.insert(name, packages[n - 1].name@),
            None => before,
        }
    }
}

/// What a change of one importer means: nothing, a changed package, or that it cannot be told.
pub open spec fn importer_change(
    old: LockfileModel,
    new: LockfileModel,
    owners: Map<Text, Text>,
    name: Text,
) -> Result<Option<Text>, Text> {
    let before = importer_at(old, name);
    let after = importer_at(new, name);
    if !tables_alike(before.other, after.other) {
        Err("unmodeled importer metadata changed for `"@ + name + "`"@)
    } else {
        match effective(old, before) {
            Err(fault) => Err(fault),
            Ok(a) => match effective(new, after) {
                Err(fault) => Err(fault),
                Ok(b) => if resolutions_alike(a, b) {
                    Ok(None)
                } else if name == "."@ {
                    Err("the root pnpm importer dependency resolution changed"@)
                } else if !owners.dom().contains(name) {
                    Err(
                        "changed importer `"@ + name
                            + "` does not map to a current workspace package"@,
                    )
                } else {
                    Ok(Some(owners[name]))
                },
            },
        }
    }
}

/// The packages that changes of the first `n` importers concern; or the first reason why that
/// cannot be told.
pub open spec fn changed_among(
    old: LockfileModel,
    new: LockfileModel,
    owners: Map<Text, Text>,
    names: Seq<Text>,
    n: int,
) -> Result<Set<Text>, Text>
    decreases n,
{
    if n <= 0 {
        Ok(Set::empty())
    } else {
        match changed_among(old, new, owners, names, n - 1) {
            Err(fault) => Err(fault),
            Ok(before) => match importer_change(old, new, owners, names[n - 1]) {
                Err(fault) => Err(fault),
                Ok(None) => Ok(before),
                Ok(Some(package)) => Ok(before.insert(package)),
            },
        }
    }
}

/// What a change of a lockfile means for the packages of a workspace.
pub open spec fn lockfile_change(
    old: LockfileModel,
    new: LockfileModel,
    owners: Map<Text, Text>,
) -> Result<Set<Text>, Text> {
    if !is_v9(old.version) || !is_v9(new.version) {
        Err("only pnpm lockfile version 9 is modeled"@)
    } else if !tables_alike(old.global, new.global) {
        Err("pnpm root settings, overrides, patches, catalogs, or other global data changed"@)
    } else if old.importers.dom() == Set::<Text>::empty() || new.importers.dom() == Set::<
        Text,
    >::empty() {
        Err("the pnpm lockfile does not contain v9 importer data"@)
    } else {
        let names = ascending_list::<String>(old.importers.dom().union(new.importers.dom()));
        changed_among(old, new, owners, names, names.len() as int)
    }
}

/// What the change of a lockfile means, given what reading it gave at the two revisions.
pub open spec fn read_change(old: ReadModel, new: ReadModel, owners: Map<Text, Text>) -> Result<
    Set<Text>,
    Text,
> {
    match (old, new) {
        (Err(reason), _) => Err("the base pnpm lockfile could not be parsed: "@ + reason),
        (Ok(_), Err(reason)) => Err("the current pnpm lockfile could not be parsed: "@ + reason),
        (Ok(before), Ok(after)) => lockfile_change(before, after, owners),
    }
}

/// What the change of a lockfile means where it may be missing at a revision.
pub open spec fn revision_change(
    old: Option<ReadModel>,
    new: Option<ReadModel>,
    owners: Map<Text, Text>,
) -> Result<Set<Text>, Text> {
    match (old, new) {
        (Some(a), Some(b)) => read_change(a, b, owners),
        _ => Err("the pnpm lockfile was added, deleted, or could not be read at both revisions"@),
    }
}

fn list_importers(root: &FilePath, packages: &Vec<Package>, disk: &DiskFacts) -> (r: KeyMap<
    String,
    String,
>)
    ensures
        plain_map(r@) == package_importers(*disk, root@, packages@, packages@.len() as int),
{
    let home = normalize_path(disk, root);
    let mut out: KeyMap<String, String> = KeyMap::new();
    let mut i: usize = 0;
    assert(plain_map(out@) =~= Map::empty());
    while i < packages.len()
        invariant
            i <= packages.len(),
            home@ == normal(*disk, root@),
            plain_map(out@) == package_importers(*disk, root@, packages@, i as int),
        decreases packages.len() - i,
    {
        let dir = normalize_path(disk, &packages[i].dir);
        match dir.strip_prefix(&home) {
            Some(rest) => {
                let name = if rest.parts.len() == 0 {
                    ".".to_owned()
                } else {
                    rest.display()
                };
                assert(importer_name(home@, dir@) == Some(name@));
                let ghost before = plain_map(out@);
                let ghost n = name@;
                out.insert(name, packages[i].name.clone());
                assert(plain_map(out@) =~= before.insert(n, packages@[i as int].name@));
            },
            None => {},
        }
        i += 1;
    }
    out
}

fn nothing_asked() -> (r: PnpmImporter)
    ensures
        forall|lock: LockfileModel, name: Text|
            !lock.importers.dom().contains(name) ==> r@ == #[trigger] importer_at(lock, name),
{
    let r = PnpmImporter {
        dependencies: KeyMap::new(),
        dev_dependencies: KeyMap::new(),
        optional_dependencies: KeyMap::new(),
        other: KeyMap::new(),
    };
    proof {
        assert(data_map(r.dependencies@) =~= Map::empty());
        assert(data_map(r.dev_dependencies@) =~= Map::empty());
        assert(data_map(r.optional_dependencies@) =~= Map::empty());
        assert(data_map(r.other@) =~= Map::empty());
    }
    r
}

pub open spec fn change_result(r: Result<Option<String>, String>) -> Result<Option<Text>, Text> {
    match r {
        Ok(t) => Ok(t.model()),
        Err(e) => Err(e@),
    }
}

fn change_of_importer(
    old: &PnpmLockfile,
    new: &PnpmLockfile,
    owners: &KeyMap<String, String>,
    name: &String,
) -> (r: Result<Option<String>, String>)
    ensures
        change_result(r) == importer_change(old@, new@, plain_map(owners@), name@),
{
    let none = nothing_asked();
    assert(old@.importers.dom() =~= old.importers@.dom());
    assert(new@.importers.dom() =~= new.importers@.dom());
    let before = match old.importers.get(name) {
        Some(i) => i,
        None => &none,
    };
    let after = match new.importers.get(name) {
        Some(i) => i,
        None => &none,
    };
    assert(before@ == importer_at(old@, name@));
    assert(after@ == importer_at(new@, name@));
    if !same_tables(&before.other, &after.other) {
        return Err(join3("unmodeled importer metadata changed for `", name.as_str(), "`"));
    }
    let a = match effective_pnpm_resolution(old, before) {
        Ok(a) => a,
        Err(fault) => {
            return Err(fault);
        },
    };
    let b = match effective_pnpm_resolution(new, after) {
        Ok(b) => b,
        Err(fault) => {
            return Err(fault);
        },
    };
    if same_resolutions(old, &a, new, &b) {
        return Ok(None);
    }
    if same(name.as_str(), ".") {
        return Err("the root pnpm importer dependency resolution changed".to_owned());
    }
    assert(plain_map(owners@).dom() =~= owners@.dom());
    match owners.get(name) {
        Some(package) => Ok(Some(package.clone())),
        None => Err(
            join3(
                "changed importer `",
                name.as_str(),
                "` does not map to a current workspace package",
            ),
        ),
    }
}

proof fn changes_stay_lost(
    old: LockfileModel,
    new: LockfileModel,
    owners: Map<Text, Text>,
    names: Seq<Text>,
    n: int,
)
    requires
        0 <= n <= names.len(),
        changed_among(old, new, owners, names, n) is Err,
    ensures
        changed_among(old, new, owners, names, names.len() as int) == changed_among(
            old,
            new,
            owners,
            names,
            n,
        ),
    decreases names.len() - n,
{
    if n < names.len() {
        changes_stay_lost(old, new, owners, names, n + 1);
    }
}

fn add_importer_names(out: &mut KeySet<String>, map: &KeyMap<String, PnpmImporter>)
    ensures
        final(out)@ == old(out)@.union(map@.dom()),
{
    let count = map.len();
    let ghost keys = map.keys();
    let ghost start = out@;
    let mut i: usize = 0;
    assert(out@ =~= start.union(keys.take(0).to_set()));
    while i < count
        invariant
            i <= count,
            keys == map.keys(),
            count == keys.len(),
            out@ == start.union(keys.take(i as int).to_set()),
        decreases count - i,
    {
        out.insert(map.key_at(i).clone());
        proof {
            assert(keys.take(i + 1) =~= keys.take(i as int).push(keys[i as int]));
            crate::collections::push_to_set(keys.take(i as int), keys[i as int]);
            assert(out@ =~= start.union(keys.take(i + 1).to_set()));
        }
        i += 1;
    }
    assert(keys.take(count as int) =~= keys);
}

fn changed_packages(
    old: &PnpmLockfile,
    new: &PnpmLockfile,
    owners: &KeyMap<String, String>,
) -> (r: LockfileImpact)
    ensures
        r@ == lockfile_change(old@, new@, plain_map(owners@)),
{
    if !is_pnpm_v9(&old.lockfile_version) || !is_pnpm_v9(&new.lockfile_version) {
        return LockfileImpact::Fallback("only pnpm lockfile version 9 is modeled".to_owned());
    }
    if !same_tables(&old.global, &new.global) {
        return LockfileImpact::Fallback(
            "pnpm root settings, overrides, patches, catalogs, or other global data changed".to_owned(),
        );
    }
    proof {
        assert(old@.importers.dom() =~= old.importers@.dom());
        assert(new@.importers.dom() =~= new.importers@.dom());
    }
    let n_old = old.importers.len();
    let n_new = new.importers.len();
    proof {
        if n_old == 0 {
            assert(old@.importers.dom() =~= Set::empty());
        } else {
            assert(old.importers.keys().to_set().contains(old.importers.keys()[0]));
        }
        if n_new == 0 {
            assert(new@.importers.dom() =~= Set::empty());
        } else {
            assert(new.importers.keys().to_set().contains(new.importers.keys()[0]));
        }
    }
    if n_old == 0 || n_new == 0 {
        return LockfileImpact::Fallback(
            "the pnpm lockfile does not contain v9 importer data".to_owned(),
        );
    }
    let mut all: KeySet<String> = KeySet::new();
    add_importer_names(&mut all, &old.importers);
    add_importer_names(&mut all, &new.importers);
    let count = all.len();
    let ghost names = all.list();
    let ghost owned = plain_map(owners@);
    proof {
        assert(all@ =~= old@.importers.dom().union(new@.importers.dom()));
        ascending_list_is::<String>(names, old@.importers.dom().union(new@.importers.dom()));
    }
    let mut changed: KeySet<String> = KeySet::new();
    let mut i: usize = 0;
    while i < count
        invariant
            i <= count,
            count == names.len(),
            names == all.list(),
            owned == plain_map(owners@),
            changed_among(old@, new@, owned, names, i as int) == Ok::<Set<Text>, Text>(changed@),
            lockfile_change(old@, new@, owned) == changed_among(
                old@,
                new@,
                owned,
                names,
                names.len() as int,
            ),
        decreases count - i,
    {
        match change_of_importer(old, new, owners, all.at(i)) {
            Ok(Some(package)) => {
                changed.insert(package);
            },
            Ok(None) => {},
            Err(fault) => {
                proof {
                    changes_stay_lost(old@, new@, owned, names, i + 1);
                }
                return LockfileImpact::Fallback(fault);
            },
        }
        i += 1;
    }
    LockfileImpact::Modeled(changed)
}

/// The packages whose resolved dependencies differ between two readings of a lockfile.
pub fn pnpm_lockfile_impact(
    root: &FilePath,
    old: &Result<PnpmLockfile, String>,
    current: &Result<PnpmLockfile, String>,
    packages: &Vec<Package>,
    disk: &DiskFacts,
) -> (r: LockfileImpact)
    ensures
        r@ == read_change(
            read_model(*old),
            read_model(*current),
            package_importers(*disk, root@, packages@, packages@.len() as int),
        ),
{
    let before = match old {
        Ok(lock) => lock,
        Err(reason) => {
            return LockfileImpact::Fallback(
                join2("the base pnpm lockfile could not be parsed: ", reason.as_str()),
            );
        },
    };
    let after = match current {
        Ok(lock) => lock,
        Err(reason) => {
            return LockfileImpact::Fallback(
                join2("the current pnpm lockfile could not be parsed: ", reason.as_str()),
            );
        },
    };
    let owners = list_importers(root, packages, disk);
    changed_packages(before, after, &owners)
}

/// The package manager pnpm.
pub struct Pnpm;

impl Pnpm {
    /// What a change of the lockfile means, given what reading it gave at the two revisions.
    pub fn lockfile_impact(
        &self,
        root: &FilePath,
        old: &Option<Result<PnpmLockfile, String>>,
        current: &Option<Result<PnpmLockfile, String>>,
        packages: &Vec<Package>,
        disk: &DiskFacts,
    ) -> (r: LockfileImpact)
        ensures
            r@ == revision_change(
                revision_model(*old),
                revision_model(*current),
                package_importers(*disk, root@, packages@, packages@.len() as int),
            ),
    {
        match (old, current) {
            (Some(a), Some(b)) => pnpm_lockfile_impact(root, a, b, packages, disk),
            _ => LockfileImpact::Fallback(
                "the pnpm lockfile was added, deleted, or could not be read at both revisions".to_owned(),
            ),
        }
    }
}

proof fn tables_are_like_themselves(t: TextMap)
    ensures
        tables_alike(t, t),
{
    assert forall|k: Text| #[trigger] t.dom().contains(k) implies alike(t[k], t[k]) by {
        values_are_like_themselves(t[k]);
    }
}

pub(crate) proof fn resolutions_are_like_themselves(r: ResolutionModel)
    ensures
        resolutions_alike(r, r),
{
    tables_are_like_themselves(r.packages);
    assert forall|k: Text| #[trigger] r.snapshots.dom().contains(k) implies snapshots_alike(
        r.snapshots[k],
        r.snapshots[k],
    ) by {
        tables_are_like_themselves(r.snapshots[k].dependencies);
        tables_are_like_themselves(r.snapshots[k].optional_dependencies);
        tables_are_like_themselves(r.snapshots[k].metadata);
    }
}

proof fn nothing_changed(lock: LockfileModel, owners: Map<Text, Text>, names: Seq<Text>, n: int)
    ensures
        changed_among(lock, lock, owners, names, n) matches Ok(changed) ==> changed == Set::<
            Text,
        >::empty(),
    decreases n,
{
    if n > 0 {
        nothing_changed(lock, owners, names, n - 1);
        let importer = importer_at(lock, names[n - 1]);
        match effective(lock, importer) {
            Ok(r) => {
                resolutions_are_like_themselves(r);
            },
            Err(_) => {},
        }
    }
}

/// A lockfile that did not change concerns no package, whichever packages there are.
pub proof fn unchanged_lockfiles_concern_nothing(read: ReadModel, owners: Map<Text, Text>)
    ensures
        read_change(read, read, owners) matches Ok(changed) ==> changed == Set::<Text>::empty(),
{
    if let Ok(lock) = read {
        let names = ascending_list::<String>(lock.importers.dom().union(lock.importers.dom()));
        nothing_changed(lock, owners, names, names.len() as int);
    }
}

} // verus!
