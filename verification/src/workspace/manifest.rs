//! Packages as their manifests describe them.
use vstd::prelude::*;

use crate::collections::{first_from, KeyMap, KeySet};
use crate::data::{
    data_view, entry_models, entry_models_at, item_models, item_models_at, json5_of, parse_json5,
    Data, DataModel,
};
use crate::graph::resolve::DiskFacts;
use crate::lookup::{entry_named, has_name, text_in, under};
use crate::order::{models, Key};
use crate::path::{components, joined_path, name_of, FilePath};
use crate::sorting::{items_of, keys_of, sort_by_key, sorted_by, sorting_maps};
use crate::text::starts_with_char;
use crate::words::{trim_leads, without_leads};
use crate::workspace::owner::Path;
use crate::workspace::Package;

verus! {

pub type Text = Seq<char>;

/// A package as a mathematical value.
#[verifier::ext_equal]
pub ghost struct PackageModel {
    pub name: Text,
    pub dir: Path,
    pub scripts: Map<Text, Text>,
    pub entrypoint: Option<Path>,
    pub exports: Map<Text, Path>,
    pub dependencies: Set<Text>,
}

pub open spec fn text_map(m: Map<Text, String>) -> Map<Text, Text> {
    m.map_values(|s: String| s@)
}

pub open spec fn path_map(m: Map<Text, FilePath>) -> Map<Text, Path> {
    m.map_values(|p: FilePath| p@)
}

impl View for Package {
    type V = PackageModel;

    open spec fn view(&self) -> PackageModel {
        PackageModel {
            name: self.name@,
            dir: self.dir@,
            scripts: text_map(self.scripts@),
            entrypoint: self.entrypoint.model(),
            exports: path_map(self.exports@),
            dependencies: self.dependencies@,
        }
    }
}

pub open spec fn package_models(list: Seq<Package>) -> Seq<PackageModel> {
    list.map_values(|p: Package| p@)
}

/// The file that an export leads to: a text itself, the first of the known conditions of a table
/// that leads somewhere, the first item of a list that does.
pub open spec fn export_path(d: DataModel) -> Option<Text>
    decreases d, 0nat,
{
    match d {
        DataModel::Text(path) => Some(path),
        DataModel::Table(entries) => match condition_path(entries, "source"@) {
            Some(path) => Some(path),
            None => match condition_path(entries, "import"@) {
                Some(path) => Some(path),
                None => match condition_path(entries, "default"@) {
                    Some(path) => Some(path),
                    None => condition_path(entries, "types"@),
                },
            },
        },
        DataModel::List(items) => first_path(items),
        _ => None,
    }
}

/// Where one condition of a table leads.
pub open spec fn condition_path(entries: Seq<(DataModel, DataModel)>, condition: Text) -> Option<Text>
    decreases entries, 1nat,
{
    match entry_named(entries, condition) {
        Some(i) => if 0 <= i < entries.len() {
            export_path(entries[i].1)
        } else {
            None
        },
        None => None,
    }
}

/// Where the first item that leads somewhere leads.
pub open spec fn first_path(items: Seq<DataModel>) -> Option<Text>
    decreases items, 1nat,
{
    if items.len() == 0 {
        None
    } else {
        match export_path(items[0]) {
            Some(path) => Some(path),
            None => first_path(items.subrange(1, items.len() as int)),
        }
    }
}

/// Where the exports of a package lead for the package itself.
pub open spec fn root_export(exports: DataModel) -> Option<Text> {
    match exports {
        DataModel::Table(entries) => match entry_named(entries, "."@) {
            Some(i) => export_path(entries[i].1),
            None => export_path(exports),
        },
        _ => export_path(exports),
    }
}

/// A path as a manifest writes it, below the directory of the manifest.
pub open spec fn below(dir: Path, text: Text) -> Path {
    joined_path(dir, components(without_leads(text, "./"@)))
}

/// A key of a table is a text that starts with a dot.
pub open spec fn is_dotted(key: DataModel) -> bool {
    key is Text && key->Text_0.len() > 0 && key->Text_0[0] == '.'
}

/// What the first `n` entries of the exports lead to, by subpath.
pub open spec fn exported_files(dir: Path, entries: Seq<(DataModel, DataModel)>, n: int) -> Map<
    Text,
    Path,
>
    decreases n,
{
    if n <= 0 {
        Map::empty()
    } else {
        let before = exported_files(dir, entries, n - 1);
        match (entries[n - 1].0, export_path(entries[n - 1].1)) {
            (DataModel::Text(key), Some(path)) => before.insert(key, below(dir, path)),
            _ => before,
        }
    }
}

/// The files that a package exports, by subpath.
pub open spec fn package_exports(dir: Path, exports: Option<DataModel>) -> Map<Text, Path> {
    match exports {
        None => Map::empty(),
        Some(d) => if d is Table && has_dotted(d->Table_0) {
            exported_files(dir, d->Table_0, d->Table_0.len() as int)
        } else {
            match export_path(d) {
                Some(path) => Map::<Text, Path>::empty().insert("."@, below(dir, path)),
                None => Map::empty(),
            }
        },
    }
}

pub open spec fn has_dotted(entries: Seq<(DataModel, DataModel)>) -> bool {
    exists|i: int| 0 <= i < entries.len() && is_dotted((#[trigger] entries[i]).0)
}

fn find_name(entries: &Vec<(Data, Data)>, name: &str) -> (r: Option<usize>)
    ensures
        match r {
            Some(i) => i < entries.len() && entry_named(entry_models(entries@), name@) == Some(
                i as int,
            ),
            None => entry_named(entry_models(entries@), name@) is None,
        },
{
    let ghost all = entry_models(entries@);
    let ghost p = has_name(all, name@);
    let ghost n = all.len() as int;
    proof {
        entry_models_at(entries@);
    }
    let mut i: usize = 0;
    while i < entries.len()
        invariant
            i <= entries.len(),
            all == entry_models(entries@),
            p == has_name(all, name@),
            n == all.len() == entries.len(),
            forall|k: int|
                0 <= k < entries.len() ==> all[k] == ((#[trigger] entries@[k]).0@, entries@[k].1@),
            first_from(p, i as int, n) == first_from(p, 0, n),
        decreases entries.len() - i,
    {
        let fits = match &entries[i].0 {
            Data::Text(text) => crate::text::same(text.as_str(), name),
            _ => false,
        };
        assert(fits == p(i as int));
        if fits {
            return Some(i);
        }
        i += 1;
    }
    None
}

fn condition_file(entries: &Vec<(Data, Data)>, condition: &str) -> (r: Option<String>)
    ensures
        r.model() == condition_path(entry_models(entries@), condition@),
    decreases entries, 1nat,
{
    proof {
        entry_models_at(entries@);
    }
    match find_name(entries, condition) {
        Some(i) => {
            assert(decreases_to!(*entries => entries@[i as int].1)) by {
                assert(decreases_to!(*entries => entries@));
                assert(decreases_to!(entries@ => entries@[i as int]));
                assert(decreases_to!(entries@[i as int] => entries@[i as int].1));
            }
            export_file(&entries[i].1)
        },
        None => None,
    }
}

/// The file that an export leads to.
fn export_file(d: &Data) -> (r: Option<String>)
    ensures
        r.model() == export_path(d@),
    decreases d, 0nat,
{
    match d {
        Data::Text(path) => Some(path.clone()),
        Data::Table(entries) => {
            assert(decreases_to!(*d => d->Table_0));
            match condition_file(entries, "source") {
                Some(path) => Some(path),
                None => match condition_file(entries, "import") {
                    Some(path) => Some(path),
                    None => match condition_file(entries, "default") {
                        Some(path) => Some(path),
                        None => condition_file(entries, "types"),
                    },
                },
            }
        },
        Data::List(items) => {
            let ghost all = item_models(items@);
            proof {
                item_models_at(items@);
            }
            let mut i: usize = 0;
            assert(all.subrange(0, all.len() as int) =~= all);
            while i < items.len()
                invariant
                    i <= items.len(),
                    *d == Data::List(*items),
                    all == item_models(items@),
                    all.len() == items.len(),
                    forall|k: int| 0 <= k < items.len() ==> all[k] == (#[trigger] items@[k])@,
                    first_path(all.subrange(i as int, all.len() as int)) == first_path(all),
                decreases items.len() - i,
            {
                assert(decreases_to!(*d => items@[i as int])) by {
                    assert(decreases_to!(*d => d->List_0));
                    assert(decreases_to!(*items => items@));
                    assert(decreases_to!(items@ => items@[i as int]));
                }
                let ghost rest = all.subrange(i as int, all.len() as int);
                assert(rest[0] == all[i as int]);
                assert(rest.subrange(1, rest.len() as int) =~= all.subrange(
                    i + 1,
                    all.len() as int,
                ));
                match export_file(&items[i]) {
                    Some(path) => {
                        return Some(path);
                    },
                    None => {},
                }
                i += 1;
            }
            None
        },
        _ => None,
    }
}

fn root_file(exports: &Data) -> (r: Option<String>)
    ensures
        r.model() == root_export(exports@),
{
    match exports {
        Data::Table(entries) => match find_name(entries, ".") {
            Some(i) => {
                proof {
                    entry_models_at(entries@);
                }
                export_file(&entries[i].1)
            },
            None => export_file(exports),
        },
        _ => export_file(exports),
    }
}

fn place_below(dir: &FilePath, text: &str) -> (r: FilePath)
    ensures
        r@ == below(dir@, text@),
{
    dir.join_text(trim_leads(text, "./").as_str())
}

fn any_dotted(entries: &Vec<(Data, Data)>) -> (r: bool)
    ensures
        r == has_dotted(entry_models(entries@)),
{
    let ghost all = entry_models(entries@);
    proof {
        entry_models_at(entries@);
    }
    let mut i: usize = 0;
    while i < entries.len()
        invariant
            i <= entries.len(),
            all == entry_models(entries@),
            all.len() == entries.len(),
            forall|k: int|
                0 <= k < entries.len() ==> all[k] == ((#[trigger] entries@[k]).0@, entries@[k].1@),
            forall|k: int| 0 <= k < i ==> !is_dotted((#[trigger] all[k]).0),
        decreases entries.len() - i,
    {
        let dotted = match &entries[i].0 {
            Data::Text(text) => starts_with_char(text.as_str(), '.'),
            _ => false,
        };
        assert(dotted == is_dotted(all[i as int].0));
        if dotted {
            return true;
        }
        i += 1;
    }
    false
}

fn list_exports(dir: &FilePath, exports: &Option<Data>) -> (r: KeyMap<String, FilePath>)
    ensures
        path_map(r@) == package_exports(dir@, data_view(*exports)),
{
    let mut out: KeyMap<String, FilePath> = KeyMap::new();
    assert(path_map(out@) =~= Map::empty());
    match exports {
        None => out,
        Some(d) => {
            match d {
                Data::Table(entries) => if any_dotted(entries) {
                    let ghost all = entry_models(entries@);
                    proof {
                        entry_models_at(entries@);
                    }
                    let mut i: usize = 0;
                    while i < entries.len()
                        invariant
                            i <= entries.len(),
                            all == entry_models(entries@),
                            all.len() == entries.len(),
                            forall|k: int|
                                0 <= k < entries.len() ==> all[k] == (
                                    (#[trigger] entries@[k]).0@,
                                    entries@[k].1@,
                                ),
                            path_map(out@) == exported_files(dir@, all, i as int),
                        decreases entries.len() - i,
                    {
                        match (&entries[i].0, export_file(&entries[i].1)) {
                            (Data::Text(key), Some(path)) => {
                                let ghost before = path_map(out@);
                                let file = place_below(dir, path.as_str());
                                let ghost f = file@;
                                out.insert(key.clone(), file);
                                assert(path_map(out@) =~= before.insert(key@, f));
                            },
                            _ => {},
                        }
                        i += 1;
                    }
                    return out;
                },
                _ => {},
            }
            match export_file(d) {
                Some(path) => {
                    let file = place_below(dir, path.as_str());
                    let ghost f = file@;
                    out.insert(".".to_owned(), file);
                    assert(path_map(out@) =~= Map::<Text, Path>::empty().insert("."@, f));
                },
                None => {},
            }
            out
        },
    }
}

/// What a package manifest says.
pub struct Manifest {
    pub name: Option<String>,
    pub scripts: KeyMap<String, String>,
    pub main: Option<String>,
    pub module: Option<String>,
    pub source: Option<String>,
    pub exports: Option<Data>,
    pub dependencies: KeyMap<String, String>,
    pub dev_dependencies: KeyMap<String, String>,
    pub peer_dependencies: KeyMap<String, String>,
    pub optional_dependencies: KeyMap<String, String>,
}

/// The same as a mathematical value; of the dependencies of all kinds only the names count.
#[verifier::ext_equal]
pub ghost struct ManifestModel {
    pub name: Option<Text>,
    pub scripts: Map<Text, Text>,
    pub main: Option<Text>,
    pub module: Option<Text>,
    pub source: Option<Text>,
    pub exports: Option<DataModel>,
    pub dependencies: Set<Text>,
}

impl View for Manifest {
    type V = ManifestModel;

    open spec fn view(&self) -> ManifestModel {
        ManifestModel {
            name: self.name.model(),
            scripts: text_map(self.scripts@),
            main: self.main.model(),
            module: self.module.model(),
            source: self.source.model(),
            exports: data_view(self.exports),
            dependencies: self.dependencies@.dom().union(self.dev_dependencies@.dom()).union(
                self.peer_dependencies@.dom(),
            ).union(self.optional_dependencies@.dom()),
        }
    }
}

fn add_keys(out: &mut KeySet<String>, map: &KeyMap<String, String>)
    ensures
        final(out)@ == old(out)@.union(map@.dom()),
{
    let count = map.len();
    let ghost keys = map.keys();
    let ghost start = out@;
    let mut i: usize = 0;
    assert(out@ =~= start.union(keys.take(0).to_set()));
    while i < count
        invariant
            i <= count,
            keys == map.keys(),
            count == keys.len(),
            out@ == start.union(keys.take(i as int).to_set()),
        decreases count - i,
    {
        out.insert(map.key_at(i).clone());
        proof {
            assert(keys.take(i + 1) =~= keys.take(i as int).push(keys[i as int]));
            crate::collections::push_to_set(keys.take(i as int), keys[i as int]);
            assert(out@ =~= start.union(keys.take(i + 1).to_set()));
        }
        i += 1;
    }
    proof {
        assert(keys.take(count as int) =~= keys);
        map.dom_is_finite();
    }
}

/// The configuration of a worker: the first of the two files that can be read.
pub open spec fn worker_config(first: Option<Text>, second: Option<Text>) -> Option<DataModel> {
    match readable(first) {
        Some(d) => Some(d),
        None => readable(second),
    }
}

pub open spec fn readable(text: Option<Text>) -> Option<DataModel> {
    match text {
        Some(t) => json5_of(t),
        None => None,
    }
}

/// The configuration that `wrangler.jsonc` holds, or else `wrangler.json`.
pub fn wrangler_config(jsonc: Option<&str>, json: Option<&str>) -> (r: Option<Data>)
    ensures
        data_view(r) == worker_config(
            match jsonc {
                Some(t) => Some(t@),
                None => None,
            },
            match json {
                Some(t) => Some(t@),
                None => None,
            },
        ),
{
    let first: Option<Data> = match jsonc {
        Some(text) => parse_json5(text),
        None => None,
    };
    match first {
        Some(d) => Some(d),
        None => match json {
            Some(text) => parse_json5(text),
            None => None,
        },
    }
}

/// The files that a package may start from, in the order in which they are tried.
pub open spec fn entry_candidates(dir: Path, m: ManifestModel) -> Seq<Path> {
    declared_entry(dir, m.source) + declared_entry(dir, m.module) + declared_entry(dir, m.main)
        + declared_entry(
        dir,
        match m.exports {
            Some(d) => root_export(d),
            None => None,
        },
    ) + seq![
        joined_path(dir, components("src/index.ts"@)),
        joined_path(dir, components("src/index.tsx"@)),
        joined_path(dir, components("index.ts"@)),
        joined_path(dir, components("worker.ts"@)),
        joined_path(dir, components("src/worker.ts"@)),
        joined_path(dir, components("src/main.ts"@)),
    ]
}

pub open spec fn declared_entry(dir: Path, text: Option<Text>) -> Seq<Path> {
    match text {
        Some(t) => seq![below(dir, t)],
        None => Seq::empty(),
    }
}

pub open spec fn is_file_at(disk: DiskFacts, list: Seq<Path>) -> spec_fn(int) -> bool {
    |i: int| disk.files@.contains(list[i])
}

/// The first path of a list that is a file.
pub open spec fn first_file(disk: DiskFacts, list: Seq<Path>) -> Option<Path> {
    match first_from(is_file_at(disk, list), 0, list.len() as int) {
        Some(i) => Some(list[i]),
        None => None,
    }
}

/// The file that a worker's configuration starts from.
pub open spec fn worker_entry(dir: Path, config: Option<DataModel>) -> Option<Path> {
    match config {
        Some(d) => match under(d, "main"@) {
            Some(main) => match text_in(main) {
                Some(text) => Some(joined_path(dir, components(text))),
                None => None,
            },
            None => None,
        },
        None => None,
    }
}

/// The file that a package starts from.
pub open spec fn entrypoint_of(
    dir: Path,
    m: ManifestModel,
    config: Option<DataModel>,
    disk: DiskFacts,
) -> Option<Path> {
    match worker_entry(dir, config) {
        Some(path) => Some(path),
        None => first_file(disk, entry_candidates(dir, m)),
    }
}

/// The package that a manifest describes.
pub open spec fn package_of(
    dir: Path,
    m: ManifestModel,
    config: Option<DataModel>,
    disk: DiskFacts,
) -> PackageModel {
    PackageModel {
        name: match (m.name, name_of(dir)) {
            (Some(name), _) => name,
            (None, Some(name)) => name,
            (None, None) => "root"@,
        },
        dir,
        scripts: m.scripts,
        entrypoint: entrypoint_of(dir, m, config, disk),
        exports: package_exports(dir, m.exports),
        dependencies: m.dependencies,
    }
}

fn push_declared(out: &mut Vec<FilePath>, dir: &FilePath, text: &Option<String>)
    ensures
        models(final(out)@) == models(old(out)@) + declared_entry(dir@, text.model()),
{
    let ghost before = models(out@);
    match text {
        Some(t) => {
            let path = place_below(dir, t.as_str());
            let ghost p = path@;
            out.push(path);
            assert(models(out@) =~= before.push(p));
        },
        None => {},
    }
    assert(models(out@) =~= before + declared_entry(dir@, text.model()));
}

/// The files that a package may start from, which have to be looked for.
pub fn entrypoint_candidates(dir: &FilePath, manifest: &Manifest) -> (r: Vec<FilePath>)
    ensures
        models(r@) == entry_candidates(dir@, manifest@),
{
    let mut out: Vec<FilePath> = Vec::new();
    assert(models(out@) =~= Seq::<Path>::empty());
    push_declared(&mut out, dir, &manifest.source);
    push_declared(&mut out, dir, &manifest.module);
    push_declared(&mut out, dir, &manifest.main);
    let exported: Option<String> = match &manifest.exports {
        Some(d) => root_file(d),
        None => None,
    };
    push_declared(&mut out, dir, &exported);
    out.push(dir.join_text("src/index.ts"));
    out.push(dir.join_text("src/index.tsx"));
    out.push(dir.join_text("index.ts"));
    out.push(dir.join_text("worker.ts"));
    out.push(dir.join_text("src/worker.ts"));
    out.push(dir.join_text("src/main.ts"));
    assert(models(out@) =~= entry_candidates(dir@, manifest@));
    out
}

fn find_file(disk: &DiskFacts, list: &Vec<FilePath>) -> (r: Option<FilePath>)
    ensures
        r.model() == first_file(*disk, models(list@)),
{
    let ghost all = models(list@);
    let ghost p = is_file_at(*disk, all);
    let ghost n = all.len() as int;
    let mut i: usize = 0;
    while i < list.len()
        invariant
            i <= list.len(),
            all == models(list@),
            n == all.len(),
            p == is_file_at(*disk, all),
            first_from(p, i as int, n) == first_from(p, 0, n),
        decreases list.len() - i,
    {
        assert(all[i as int] == list@[i as int]@);
        if disk.files.contains(&list[i]) {
            assert(p(i as int));
            return Some(list[i].dup());
        }
        assert(!p(i as int));
        i += 1;
    }
    None
}

fn find_worker_entry(dir: &FilePath, config: &Option<Data>) -> (r: Option<FilePath>)
    ensures
        r.model() == worker_entry(dir@, data_view(*config)),
{
    match config {
        Some(d) => match d.get("main") {
            Some(main) => match main.as_str() {
                Some(text) => Some(dir.join_text(text)),
                None => None,
            },
            None => None,
        },
        None => None,
    }
}

/// The package that a manifest describes.
pub fn package_from(dir: FilePath, manifest: Manifest, config: &Option<Data>, disk: &DiskFacts) -> (r:
    Package)
    ensures
        r@ == package_of(dir@, manifest@, data_view(*config), *disk),
{
    let entrypoint = match find_worker_entry(&dir, config) {
        Some(path) => Some(path),
        None => find_file(disk, &entrypoint_candidates(&dir, &manifest)),
    };
    let exports = list_exports(&dir, &manifest.exports);
    let mut dependencies: KeySet<String> = KeySet::new();
    add_keys(&mut dependencies, &manifest.dependencies);
    add_keys(&mut dependencies, &manifest.dev_dependencies);
    add_keys(&mut dependencies, &manifest.peer_dependencies);
    add_keys(&mut dependencies, &manifest.optional_dependencies);
    assert(dependencies@ =~= manifest@.dependencies);
    let Manifest {
        name,
        scripts,
        main: _,
        module: _,
        source: _,
        exports: _,
        dependencies: _,
        dev_dependencies: _,
        peer_dependencies: _,
        optional_dependencies: _,
    } = manifest;
    let name = match name {
        Some(name) => name,
        None => match dir.file_name() {
            Some(name) => name,
            None => "root".to_owned(),
        },
    };
    Package { name, dir, scripts, entrypoint, exports, dependencies }
}

/// A manifest that a search found: its directory, what reading it gave, and the texts of the
/// worker's configuration files beside it.
pub struct ManifestFile {
    pub dir: FilePath,
    pub manifest: Result<Manifest, String>,
    pub jsonc: Option<String>,
    pub json: Option<String>,
}

impl ManifestFile {
    /// What the manifest says, where it can be read.
    pub open spec fn says(self) -> Option<ManifestModel> {
        match self.manifest {
            Ok(manifest) => Some(manifest@),
            Err(_) => None,
        }
    }

    /// The package that the manifest describes.
    pub open spec fn described(self, disk: DiskFacts) -> PackageModel {
        package_of(
            self.dir@,
            self.says()->0,
            worker_config(self.jsonc.model(), self.json.model()),
            disk,
        )
    }
}

pub open spec fn described_packages(files: Seq<ManifestFile>, disk: DiskFacts) -> Seq<PackageModel> {
    files.map_values(|f: ManifestFile| f.described(disk))
}

pub open spec fn package_names(list: Seq<PackageModel>) -> Seq<Text> {
    list.map_values(|p: PackageModel| p.name)
}

/// The packages of the manifests that a search found, in the order of their names; or the
/// directory of the first manifest that cannot be read, and what is wrong with it.
pub fn discover_packages(files: Vec<ManifestFile>, disk: &DiskFacts) -> (r: Result<
    Vec<Package>,
    (FilePath, String),
>)
    ensures
        match r {
            Ok(packages) => {
                &&& forall|i: int| 0 <= i < files@.len() ==> (#[trigger] files@[i]).says() is Some
                &&& package_models(packages@) == sorted_by::<String, PackageModel>(
                    package_names(described_packages(files@, *disk)),
                    described_packages(files@, *disk),
                )
            },
            Err((dir, reason)) => exists|i: int|
                {
                    &&& 0 <= i < files@.len()
                    &&& (#[trigger] files@[i]).manifest matches Err(fault) && fault@ == reason@
                    &&& files@[i].dir@ == dir@
                    &&& forall|j: int| 0 <= j < i ==> (#[trigger] files@[j]).says() is Some
                },
        },
{
    let ghost given = files@;
    let ghost described = described_packages(given, *disk);
    let mut pairs: Vec<(String, Package)> = Vec::new();
    for file in it: files
        invariant
            it.seq() == given,
            described == described_packages(given, *disk),
            pairs.len() == it.index(),
            forall|i: int| 0 <= i < it.index() ==> (#[trigger] given[i]).says() is Some,
            forall|i: int|
                0 <= i < it.index() ==> (#[trigger] pairs@[i]).1@ == described[i] && pairs@[i].0@
                    == described[i].name,
    {
        let ghost n = it.index() as int;
        let ManifestFile { dir, manifest, jsonc, json } = file;
        assert(given[n] == (ManifestFile { dir, manifest, jsonc, json }));
        let manifest = match manifest {
            Ok(manifest) => manifest,
            Err(reason) => {
                assert(given[n].manifest is Err);
                return Err((dir, reason));
            },
        };
        let first: Option<&str> = match &jsonc {
            Some(t) => Some(t.as_str()),
            None => None,
        };
        let second: Option<&str> = match &json {
            Some(t) => Some(t.as_str()),
            None => None,
        };
        let config = wrangler_config(first, second);
        let package = package_from(dir, manifest, &config, disk);
        assert(package@ == given[n].described(*disk));
        assert(described[n] == package@);
        pairs.push((package.name.clone(), package));
    }
    let ghost keys = keys_of(pairs@);
    let ghost items = items_of(pairs@);
    let ghost f = |p: Package| p@;
    let out = sort_by_key(pairs);
    proof {
        assert(items.map_values(f) =~= described);
        assert(keys =~= package_names(described));
        sorting_maps::<String, Package, PackageModel>(keys, items, f, keys.len() as int);
        assert(package_models(out@) == out@.map_values(f));
    }
    Ok(out)
}

} // verus!
