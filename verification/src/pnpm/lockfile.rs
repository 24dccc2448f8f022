//! Lockfiles of pnpm.
use vstd::prelude::*;

use crate::collections::KeyMap;
use crate::data::{Data, DataModel};
use crate::lookup::{alike, same_data, untagged};
use crate::order::Key;
use crate::text::{same, starts_with};
use crate::words::has_char;

verus! {

pub type Text = Seq<char>;

/// A table under texts.
pub type TextMap = Map<Text, DataModel>;

pub open spec fn data_map(m: Map<Text, Data>) -> TextMap {
    m.map_values(|d: Data| d@)
}

/// What an importer asks for.
#[verifier::ext_equal]
pub ghost struct ImporterModel {
    pub dependencies: TextMap,
    pub dev_dependencies: TextMap,
    pub optional_dependencies: TextMap,
    pub other: TextMap,
}

/// What a resolved package asks for.
#[verifier::ext_equal]
pub ghost struct SnapshotModel {
    pub dependencies: TextMap,
    pub optional_dependencies: TextMap,
    pub metadata: TextMap,
}

#[verifier::ext_equal]
pub ghost struct LockfileModel {
    pub version: DataModel,
    pub importers: Map<Text, ImporterModel>,
    pub packages: TextMap,
    pub snapshots: Map<Text, SnapshotModel>,
    pub global: TextMap,
}

pub struct PnpmImporter {
    pub dependencies: KeyMap<String, Data>,
    pub dev_dependencies: KeyMap<String, Data>,
    pub optional_dependencies: KeyMap<String, Data>,
    pub other: KeyMap<String, Data>,
}

impl View for PnpmImporter {
    type V = ImporterModel;

    open spec fn view(&self) -> ImporterModel {
        ImporterModel {
            dependencies: data_map(self.dependencies@),
            dev_dependencies: data_map(self.dev_dependencies@),
            optional_dependencies: data_map(self.optional_dependencies@),
            other: data_map(self.other@),
        }
    }
}

pub struct PnpmSnapshot {
    pub dependencies: KeyMap<String, Data>,
    pub optional_dependencies: KeyMap<String, Data>,
    pub metadata: KeyMap<String, Data>,
}

impl View for PnpmSnapshot {
    type V = SnapshotModel;

    open spec fn view(&self) -> SnapshotModel {
        SnapshotModel {
            dependencies: data_map(self.dependencies@),
            optional_dependencies: data_map(self.optional_dependencies@),
            metadata: data_map(self.metadata@),
        }
    }
}

/// A lockfile of pnpm.
pub struct PnpmLockfile {
    pub lockfile_version: Data,
    pub importers: KeyMap<String, PnpmImporter>,
    pub packages: KeyMap<String, Data>,
    pub snapshots: KeyMap<String, PnpmSnapshot>,
    pub global: KeyMap<String, Data>,
}

pub open spec fn importer_models(m: Map<Text, PnpmImporter>) -> Map<Text, ImporterModel> {
    m.map_values(|i: PnpmImporter| i@)
}

pub open spec fn snapshot_models(m: Map<Text, PnpmSnapshot>) -> Map<Text, SnapshotModel> {
    m.map_values(|s: PnpmSnapshot| s@)
}

impl View for PnpmLockfile {
    type V = LockfileModel;

    open spec fn view(&self) -> LockfileModel {
        LockfileModel {
            version: self.lockfile_version@,
            importers: importer_models(self.importers@),
            packages: data_map(self.packages@),
            snapshots: snapshot_models(self.snapshots@),
            global: data_map(self.global@),
        }
    }
}

/// What reading a lockfile gives: what it holds, or what is wrong with it.
pub type ReadModel = Result<LockfileModel, Text>;

pub open spec fn read_model(read: Result<PnpmLockfile, String>) -> ReadModel {
    match read {
        Ok(lock) => Ok(lock@),
        Err(reason) => Err(reason@),
    }
}

/// What reading a lockfile gives where it is there.
pub open spec fn revision_model(read: Option<Result<PnpmLockfile, String>>) -> Option<ReadModel> {
    match read {
        Some(r) => Some(read_model(r)),
        None => None,
    }
}

/// A version that is nine: as a text, or as a number that is nine or a fraction more.
pub open spec fn is_v9(version: DataModel) -> bool {
    match untagged(version) {
        DataModel::Text(text) => text == "9"@ || "9."@.is_prefix_of(text),
        DataModel::Number(text) => text == "9"@ || ("9."@.is_prefix_of(text) && !text.contains('e')),
        _ => false,
    }
}

pub fn is_pnpm_v9(version: &Data) -> (r: bool)
    ensures
        r == is_v9(version@),
{
    match version.inner() {
        Data::Text(text) => same(text.as_str(), "9") || starts_with(text.as_str(), "9."),
        Data::Number(text) => same(text.as_str(), "9") || (starts_with(text.as_str(), "9.")
            && !has_char(text.as_str(), 'e')),
        _ => false,
    }
}

/// Two tables hold the same under the same names.
pub open spec fn tables_alike(a: TextMap, b: TextMap) -> bool {
    &&& a.dom() == b.dom()
    &&& forall|k: Text| #[trigger] a.dom().contains(k) ==> alike(a[k], b[k])
}

pub open spec fn snapshots_alike(a: SnapshotModel, b: SnapshotModel) -> bool {
    tables_alike(a.dependencies, b.dependencies) && tables_alike(
        a.optional_dependencies,
        b.optional_dependencies,
    ) && tables_alike(a.metadata, b.metadata)
}

/// Two lists of keys in ascending order are equal exactly where the maps have the same keys.
fn same_keys<V, W>(a: &KeyMap<String, V>, b: &KeyMap<String, W>) -> (r: bool)
    ensures
        r == (a@.dom() == b@.dom()),
        r ==> a.keys() == b.keys(),
{
    let n = a.len();
    let m = b.len();
    if n != m {
        proof {
            if a@.dom() == b@.dom() {
                crate::collections::ascending_is_unique::<String>(a.keys(), b.keys());
            }
        }
        return false;
    }
    let mut i: usize = 0;
    while i < n
        invariant
            i <= n,
            n == a.keys().len(),
            n == b.keys().len(),
            crate::collections::ascending::<String>(a.keys()),
            crate::collections::ascending::<String>(b.keys()),
            a@.dom() == a.keys().to_set(),
            b@.dom() == b.keys().to_set(),
            forall|k: int| 0 <= k < i ==> #[trigger] a.keys()[k] == b.keys()[k],
        decreases n - i,
    {
        if *a.key_at(i) != *b.key_at(i) {
            proof {
                assert(a.keys()[i as int] != b.keys()[i as int]);
                if a@.dom() == b@.dom() {
                    crate::collections::ascending_is_unique::<String>(a.keys(), b.keys());
                }
            }
            return false;
        }
        i += 1;
    }
    assert(a.keys() =~= b.keys());
    true
}

/// Whether two tables hold the same.
pub fn same_tables(a: &KeyMap<String, Data>, b: &KeyMap<String, Data>) -> (r: bool)
    ensures
        r == tables_alike(data_map(a@), data_map(b@)),
{
    let ghost x = data_map(a@);
    let ghost y = data_map(b@);
    assert(x.dom() =~= a@.dom());
    assert(y.dom() =~= b@.dom());
    if !same_keys(a, b) {
        return false;
    }
    let n = a.len();
    let m = b.len();
    let ghost keys = a.keys();
    let mut i: usize = 0;
    while i < n
        invariant
            i <= n,
            n == keys.len(),
            keys == a.keys(),
            keys == b.keys(),
            x == data_map(a@),
            y == data_map(b@),
            forall|k: int| 0 <= k < i ==> alike(x[#[trigger] keys[k]], y[keys[k]]),
        decreases n - i,
    {
        let p = a.value_at(i);
        let q = b.value_at(i);
        assert(x[keys[i as int]] == p@);
        assert(y[keys[i as int]] == q@);
        assert(x.dom().contains(keys[i as int]));
        if !same_data(p, q) {
            return false;
        }
        i += 1;
    }
    proof {
        assert forall|k: Text| #[trigger] x.dom().contains(k) implies alike(x[k], y[k]) by {
            assert(keys.to_set().contains(k));
            let j = choose|j: int| 0 <= j < keys.len() && keys[j] == k;
            assert(alike(x[keys[j]], y[keys[j]]));
        }
    }
    true
}

/// Whether two resolved packages ask for the same.
pub fn same_snapshots(a: &PnpmSnapshot, b: &PnpmSnapshot) -> (r: bool)
    ensures
        r == snapshots_alike(a@, b@),
{
    same_tables(&a.dependencies, &b.dependencies) && same_tables(
        &a.optional_dependencies,
        &b.optional_dependencies,
    ) && same_tables(&a.metadata, &b.metadata)
}

} // verus!
