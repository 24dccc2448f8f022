//! Which packages a change reaches through path dependencies between Rust crates.
use vstd::prelude::*;

use crate::collections::{KeyMap, KeySet};
use crate::graph::resolve::{normal, normalize_path, DiskFacts};
use crate::order::{models, Key};
use crate::path::{components, joined_path, name_of, parent_of, FilePath};
use crate::text::same;
use crate::walk::{closure, listed, reached_from, reaches};
use crate::workspace::owner::Path;
use crate::workspace::Package;

verus! {

pub type Text = Seq<char>;

/// A dependency of a crate; one inside the workspace has a path.
pub struct CargoDependency {
    pub name: String,
    pub path: Option<FilePath>,
}

/// A crate of the workspace.
pub struct CargoPackage {
    pub name: String,
    pub manifest_path: FilePath,
    pub dependencies: Vec<CargoDependency>,
}

/// The directory of a crate in canonical form.
pub open spec fn crate_dir(disk: DiskFacts, p: CargoPackage) -> Option<Path> {
    match parent_of(p.manifest_path@) {
        Some(dir) => Some(normal(disk, dir)),
        None => None,
    }
}

/// The directories of the first `n` crates, by name.
pub open spec fn crate_dirs(disk: DiskFacts, root: Path, crates: Seq<CargoPackage>, n: int) -> Map<
    Text,
    Path,
>
    decreases n,
{
    if n <= 0 {
        Map::empty()
    } else {
        let dir = match crate_dir(disk, crates[n - 1]) {
            Some(dir) => dir,
            None => root,
        };
        crate_dirs(disk, root, crates, n - 1).insert(crates[n - 1].name@, dir)
    }
}

/// A directory of some crate.
pub open spec fn is_crate_dir(dirs: Map<Text, Path>, dir: Path) -> bool {
    exists|name: Text| #[trigger] dirs.dom().contains(name) && dirs[name] == dir
}

/// The crate at `to` has a path dependency on the crate at `from`.
pub open spec fn says_uses(disk: DiskFacts, p: CargoPackage, j: int, from: Path, to: Path) -> bool {
    &&& 0 <= j < p.dependencies@.len()
    &&& crate_dir(disk, p) == Some(to)
    &&& match p.dependencies@[j].path {
        Some(path) => normal(disk, path@) == from,
        None => false,
    }
}

/// A change of the crate at `from` is a change of the crate at `to`.
pub open spec fn crate_uses(disk: DiskFacts, crates: Seq<CargoPackage>) -> spec_fn(Path, Path) -> bool {
    |from: Path, to: Path|
        exists|i: int, j: int|
            0 <= i < crates.len() && #[trigger] says_uses(disk, crates[i], j, from, to)
}

/// A file that concerns every crate.
pub open spec fn is_root_manifest(root: Path, path: Path) -> bool {
    parent_of(path) == Some(root) && (name_of(path) == Some("Cargo.toml"@) || name_of(path) == Some(
        "Cargo.lock"@,
    ))
}

/// The directory is the deepest of a crate above the path.
pub open spec fn is_deepest(dirs: Map<Text, Path>, path: Path, dir: Path) -> bool {
    is_crate_dir(dirs, dir) && dir.is_prefix_of(path) && forall|other: Path|
        #[trigger] is_crate_dir(dirs, other) && other.is_prefix_of(path) ==> other.len() <= dir.len()
}

/// The crates that changed paths belong to.
pub open spec fn changed_crates(
    disk: DiskFacts,
    root: Path,
    dirs: Map<Text, Path>,
    changed: Seq<Path>,
) -> Set<Path> {
    if exists|i: int| 0 <= i < changed.len() && is_root_manifest(root, normal(disk, #[trigger] changed[i])) {
        Set::new(|dir: Path| is_crate_dir(dirs, dir))
    } else {
        Set::new(
            |dir: Path|
                exists|i: int|
                    0 <= i < changed.len() && is_deepest(
                        dirs,
                        normal(disk, #[trigger] changed[i]),
                        dir,
                    ),
        )
    }
}

/// The crates that a change of paths reaches.
pub open spec fn reached_crates(
    disk: DiskFacts,
    root: Path,
    crates: Seq<CargoPackage>,
    changed: Seq<Path>,
) -> Set<Path> {
    let dirs = crate_dirs(disk, root, crates, crates.len() as int);
    Set::new(
        |dir: Path|
            exists|start: Path|
                changed_crates(disk, root, dirs, changed).contains(start) && #[trigger] reaches(
                    crate_uses(disk, crates),
                    start,
                    dir,
                ),
    )
}

/// The selected packages whose directory is one of these crates.
pub open spec fn packages_at(
    disk: DiskFacts,
    packages: Seq<Package>,
    selected: Set<Text>,
    dirs: Set<Path>,
) -> Set<Text> {
    Set::new(
        |name: Text|
            exists|i: int|
                0 <= i < packages.len() && (#[trigger] packages[i]).name@ == name && selected.contains(
                    name,
                ) && dirs.contains(normal(disk, packages[i].dir@)),
    )
}

fn list_crate_dirs(disk: &DiskFacts, root: &FilePath, crates: &Vec<CargoPackage>) -> (r: KeyMap<
    String,
    FilePath,
>)
    ensures
        crate::workspace::manifest::path_map(r@) == crate_dirs(
            *disk,
            root@,
            crates@,
            crates@.len() as int,
        ),
{
    let mut out: KeyMap<String, FilePath> = KeyMap::new();
    let mut i: usize = 0;
    assert(crate::workspace::manifest::path_map(out@) =~= Map::empty());
    while i < crates.len()
        invariant
            i <= crates.len(),
            crate::workspace::manifest::path_map(out@) == crate_dirs(*disk, root@, crates@, i as int),
        decreases crates.len() - i,
    {
        let dir = match crates[i].manifest_path.parent() {
            Some(parent) => normalize_path(disk, &parent),
            None => root.dup(),
        };
        let ghost before = crate::workspace::manifest::path_map(out@);
        let ghost d = dir@;
        out.insert(crates[i].name.clone(), dir);
        assert(crate::workspace::manifest::path_map(out@) =~= before.insert(
            crates@[i as int].name@,
            d,
        ));
        i += 1;
    }
    out
}

/// The directories of crates as a set.
fn dir_set(dirs: &KeyMap<String, FilePath>) -> (r: KeySet<FilePath>)
    ensures
        forall|d: Path| #[trigger]
            r@.contains(d) == is_crate_dir(crate::workspace::manifest::path_map(dirs@), d),
{
    let ghost map = crate::workspace::manifest::path_map(dirs@);
    let ghost keys = dirs.keys();
    let n = dirs.len();
    let mut out: KeySet<FilePath> = KeySet::new();
    let mut i: usize = 0;
    while i < n
        invariant
            i <= n,
            n == keys.len(),
            keys == dirs.keys(),
            map == crate::workspace::manifest::path_map(dirs@),
            forall|d: Path| #[trigger]
                out@.contains(d) == (exists|k: int| 0 <= k < i && map[#[trigger] keys[k]] == d),
        decreases n - i,
    {
        let ghost before = out@;
        let dir = dirs.value_at(i);
        assert(map[keys[i as int]] == dir@);
        out.insert(dir.dup());
        proof {
            assert forall|d: Path| #[trigger]
                out@.contains(d) == (exists|k: int| 0 <= k < i + 1 && map[#[trigger] keys[k]] == d) by {
                assert(before.contains(d) == (exists|k: int| 0 <= k < i && map[#[trigger] keys[k]] == d));
                if d == dir@ {
                    assert(map[keys[i as int]] == d);
                }
            }
        }
        i += 1;
    }
    proof {
        assert forall|d: Path| #[trigger] out@.contains(d) == is_crate_dir(map, d) by {
            if is_crate_dir(map, d) {
                let name = choose|name: Text| #[trigger] map.dom().contains(name) && map[name] == d;
                assert(dirs@.dom().contains(name));
                let k = choose|k: int| 0 <= k < keys.len() && keys[k] == name;
                assert(map[keys[k]] == d);
            }
            if out@.contains(d) {
                let k = choose|k: int| 0 <= k < n && map[#[trigger] keys[k]] == d;
                assert(keys.contains(keys[k]));
                assert(dirs@.dom().contains(keys[k]));
                assert(map.dom().contains(keys[k]));
            }
        }
    }
    out
}

fn deepest(dirs: &KeySet<FilePath>, path: &FilePath, Ghost(map): Ghost<Map<Text, Path>>) -> (r: Option<
    FilePath,
>)
    requires
        forall|d: Path| #[trigger] dirs@.contains(d) == is_crate_dir(map, d),
    ensures
        match r {
            Some(dir) => forall|d: Path| #[trigger] is_deepest(map, path@, d) == (d == dir@),
            None => forall|d: Path| !#[trigger] is_deepest(map, path@, d),
        },
{
    let n = dirs.len();
    let ghost list = dirs.list();
    let mut best: Option<usize> = None;
    let mut i: usize = 0;
    while i < n
        invariant
            i <= n,
            n == list.len(),
            list == dirs.list(),
            match best {
                Some(b) => b < i && list[b as int].is_prefix_of(path@) && forall|k: int|
                    0 <= k < i && (#[trigger] list[k]).is_prefix_of(path@) ==> list[k].len()
                        <= list[b as int].len(),
                None => forall|k: int| 0 <= k < i ==> !(#[trigger] list[k]).is_prefix_of(path@),
            },
        decreases n - i,
    {
        let dir = dirs.at(i);
        if path.starts_with(dir) {
            match best {
                Some(b) => {
                    if dirs.at(b).parts.len() <= dir.parts.len() {
                        best = Some(i);
                    }
                },
                None => {
                    best = Some(i);
                },
            }
        }
        i += 1;
    }
    proof {
        assert forall|d: Path| #[trigger] is_crate_dir(map, d) implies exists|k: int|
            0 <= k < n && #[trigger] list[k] == d by {
            assert(dirs@.contains(d));
            let k = choose|k: int| 0 <= k < list.len() && list[k] == d;
            assert(list[k] == d);
        }
    }
    match best {
        Some(b) => {
            let dir = dirs.at(b);
            proof {
                assert(dirs@.contains(dir@));
                assert forall|other: Path|
                    #[trigger] is_crate_dir(map, other) && other.is_prefix_of(path@) implies other.len()
                    <= dir@.len() by {
                    let k = choose|k: int| 0 <= k < n && #[trigger] list[k] == other;
                    assert(list[k] == other);
                }
                assert(is_deepest(map, path@, dir@));
                assert forall|d: Path| #[trigger] is_deepest(map, path@, d) == (d == dir@) by {
                    if is_deepest(map, path@, d) {
                        assert(is_crate_dir(map, dir@));
                        assert(d.len() == dir@.len());
                        assert(d =~= dir@);
                    }
                }
            }
            Some(dir.dup())
        },
        None => None,
    }
}

fn reverse_dependencies(disk: &DiskFacts, crates: &Vec<CargoPackage>) -> (r: KeyMap<
    FilePath,
    KeySet<FilePath>,
>)
    ensures
        forall|a: Path, b: Path| #[trigger]
            listed::<FilePath>(r@)(a, b) == crate_uses(*disk, crates@)(a, b),
{
    let mut graph: KeyMap<FilePath, KeySet<FilePath>> = KeyMap::new();
    let mut i: usize = 0;
    while i < crates.len()
        invariant
            i <= crates.len(),
            forall|a: Path, b: Path| #[trigger]
                listed::<FilePath>(graph@)(a, b) == (exists|k: int, j: int|
                    0 <= k < i && #[trigger] says_uses(*disk, crates@[k], j, a, b)),
        decreases crates.len() - i,
    {
        let item = &crates[i];
        let ghost start = graph@;
        let consumer: Option<FilePath> = match item.manifest_path.parent() {
            Some(parent) => Some(normalize_path(disk, &parent)),
            None => None,
        };
        match &consumer {
            Some(to) => {
                let mut j: usize = 0;
                while j < item.dependencies.len()
                    invariant
                        j <= item.dependencies.len(),
                        crate_dir(*disk, *item) == Some(to@),
                        forall|a: Path, b: Path| #[trigger]
                            listed::<FilePath>(graph@)(a, b) == (listed::<FilePath>(start)(a, b)
                                || exists|l: int| 0 <= l < j && #[trigger] says_uses(
                                *disk,
                                *item,
                                l,
                                a,
                                b,
                            )),
                    decreases item.dependencies.len() - j,
                {
                    let ghost before = graph@;
                    let ghost mut added: Option<Path> = None;
                    match &item.dependencies[j].path {
                        Some(path) => {
                            let from = normalize_path(disk, path);
                            proof {
                                added = Some(from@);
                            }
                            graph.link(from, to.dup());
                        },
                        None => {},
                    }
                    proof {
                        assert forall|a: Path, b: Path| #[trigger]
                            listed::<FilePath>(graph@)(a, b) == (listed::<FilePath>(start)(a, b)
                                || exists|l: int| 0 <= l < j + 1 && #[trigger] says_uses(
                                *disk,
                                *item,
                                l,
                                a,
                                b,
                            )) by {
                            assert(listed::<FilePath>(before)(a, b) == (listed::<FilePath>(start)(a, b)
                                || exists|l: int| 0 <= l < j && #[trigger] says_uses(
                                *disk,
                                *item,
                                l,
                                a,
                                b,
                            )));
                            assert(says_uses(*disk, *item, j as int, a, b) == (added == Some(a) && b
                                == to@));
                            assert(listed::<FilePath>(graph@)(a, b)
                                == crate::collections::pairs::<FilePath, FilePath>(graph@).contains(
                                (a, b),
                            ));
                            assert(listed::<FilePath>(before)(a, b)
                                == crate::collections::pairs::<FilePath, FilePath>(before).contains(
                                (a, b),
                            ));
                        }
                    }
                    j += 1;
                }
            },
            None => {},
        }
        proof {
            assert forall|a: Path, b: Path| #[trigger]
                listed::<FilePath>(graph@)(a, b) == (exists|k: int, j: int|
                    0 <= k < i + 1 && #[trigger] says_uses(*disk, crates@[k], j, a, b)) by {
                assert(listed::<FilePath>(start)(a, b) == (exists|k: int, j: int|
                    0 <= k < i && #[trigger] says_uses(*disk, crates@[k], j, a, b)));
                if exists|k: int, j: int|
                    0 <= k < i + 1 && #[trigger] says_uses(*disk, crates@[k], j, a, b) {
                    let (k, j) = choose|k: int, j: int|
                        0 <= k < i + 1 && #[trigger] says_uses(*disk, crates@[k], j, a, b);
                    assert(says_uses(*disk, crates@[k], j, a, b));
                }
                if exists|l: int| 0 <= l < item.dependencies.len() && #[trigger] says_uses(
                    *disk,
                    *item,
                    l,
                    a,
                    b,
                ) {
                    let l = choose|l: int|
                        0 <= l < item.dependencies.len() && #[trigger] says_uses(*disk, *item, l, a, b);
                    assert(says_uses(*disk, crates@[i as int], l, a, b));
                }
            }
        }
        i += 1;
    }
    graph
}

fn touches_root(disk: &DiskFacts, root: &FilePath, changed: &Vec<FilePath>) -> (r: bool)
    ensures
        r == (exists|i: int|
            0 <= i < changed@.len() && is_root_manifest(
                root@,
                normal(*disk, #[trigger] models(changed@)[i]),
            )),
{
    let ghost all = models(changed@);
    let mut i: usize = 0;
    while i < changed.len()
        invariant
            i <= changed.len(),
            all == models(changed@),
            forall|k: int|
                0 <= k < i ==> !is_root_manifest(root@, normal(*disk, #[trigger] all[k])),
        decreases changed.len() - i,
    {
        assert(all[i as int] == changed@[i as int]@);
        let path = normalize_path(disk, &changed[i]);
        let below = match path.parent() {
            Some(parent) => parent.same_as(root),
            None => false,
        };
        let named = match path.file_name() {
            Some(name) => same(name.as_str(), "Cargo.toml") || same(name.as_str(), "Cargo.lock"),
            None => false,
        };
        assert((below && named) == is_root_manifest(root@, path@));
        if below && named {
            return true;
        }
        i += 1;
    }
    false
}

fn list_changed_crates(
    disk: &DiskFacts,
    root: &FilePath,
    dirs: &KeyMap<String, FilePath>,
    changed: &Vec<FilePath>,
) -> (r: KeySet<FilePath>)
    ensures
        r@ == changed_crates(
            *disk,
            root@,
            crate::workspace::manifest::path_map(dirs@),
            models(changed@),
        ),
{
    let ghost map = crate::workspace::manifest::path_map(dirs@);
    let ghost all = models(changed@);
    let set = dir_set(dirs);
    if touches_root(disk, root, changed) {
        assert(set@ =~= changed_crates(*disk, root@, map, all));
        return set;
    }
    let mut out: KeySet<FilePath> = KeySet::new();
    let mut i: usize = 0;
    while i < changed.len()
        invariant
            i <= changed.len(),
            all == models(changed@),
            forall|d: Path| #[trigger] set@.contains(d) == is_crate_dir(map, d),
            forall|d: Path| #[trigger]
                out@.contains(d) == (exists|k: int|
                    0 <= k < i && is_deepest(map, normal(*disk, #[trigger] all[k]), d)),
        decreases changed.len() - i,
    {
        let ghost before = out@;
        assert(all[i as int] == changed@[i as int]@);
        let path = normalize_path(disk, &changed[i]);
        let found = deepest(&set, &path, Ghost(map));
        let ghost f = found.model();
        match found {
            Some(dir) => {
                out.insert(dir);
            },
            None => {},
        }
        proof {
            assert forall|d: Path| #[trigger]
                out@.contains(d) == (exists|k: int|
                    0 <= k < i + 1 && is_deepest(map, normal(*disk, #[trigger] all[k]), d)) by {
                assert(before.contains(d) == (exists|k: int|
                    0 <= k < i && is_deepest(map, normal(*disk, #[trigger] all[k]), d)));
                assert(is_deepest(map, normal(*disk, all[i as int]), d) == (f == Some(d)));
            }
        }
        i += 1;
    }
    assert(out@ =~= changed_crates(*disk, root@, map, all));
    out
}

/// The selected packages that a change reaches through crates. `crates` lists the crates of the
/// workspace; where the root has no manifest of Cargo, no package is reached.
pub fn affected_packages(
    root: &FilePath,
    changed_paths: &Vec<FilePath>,
    packages: &Vec<Package>,
    selected: &KeySet<String>,
    crates: &Vec<CargoPackage>,
    disk: &DiskFacts,
) -> (r: KeySet<String>)
    ensures
        if disk.files@.contains(joined_path(root@, components("Cargo.toml"@))) {
            r@ == packages_at(
                *disk,
                packages@,
                selected@,
                reached_crates(*disk, normal(*disk, root@), crates@, models(changed_paths@)),
            )
        } else {
            r@ == Set::<Text>::empty()
        },
{
    let mut out: KeySet<String> = KeySet::new();
    if !disk.files.contains(&root.join_text("Cargo.toml")) {
        return out;
    }
    let home = normalize_path(disk, root);
    let dirs = list_crate_dirs(disk, &home, crates);
    let start = list_changed_crates(disk, &home, &dirs, changed_paths);
    let graph = reverse_dependencies(disk, crates);
    let reached = closure(&graph, &start);
    let ghost whole = reached_crates(*disk, home@, crates@, models(changed_paths@));
    proof {
        assert(listed::<FilePath>(graph@) =~= crate_uses(*disk, crates@));
        assert forall|d: Path| reached@.contains(d) == whole.contains(d) by {
            assert(reached@.contains(d) == reached_from::<FilePath>(graph@, start@).contains(d));
        }
        assert(reached@ =~= whole);
    }
    let mut i: usize = 0;
    while i < packages.len()
        invariant
            i <= packages.len(),
            reached@ == whole,
            forall|n: Text| #[trigger]
                out@.contains(n) == (exists|k: int|
                    0 <= k < i && (#[trigger] packages@[k]).name@ == n && selected@.contains(n)
                        && whole.contains(normal(*disk, packages@[k].dir@))),
        decreases packages.len() - i,
    {
        let ghost before = out@;
        let package = &packages[i];
        let fits = selected.contains(&package.name) && reached.contains(
            &normalize_path(disk, &package.dir),
        );
        if fits {
            out.insert(package.name.clone());
        }
        proof {
            assert forall|n: Text| #[trigger]
                out@.contains(n) == (exists|k: int|
                    0 <= k < i + 1 && (#[trigger] packages@[k]).name@ == n && selected@.contains(n)
                        && whole.contains(normal(*disk, packages@[k].dir@))) by {
                assert(before.contains(n) == (exists|k: int|
                    0 <= k < i && (#[trigger] packages@[k]).name@ == n && selected@.contains(n)
                        && whole.contains(normal(*disk, packages@[k].dir@))));
                if fits && n == packages@[i as int].name@ {
                    assert(whole.contains(normal(*disk, packages@[i as int].dir@)));
                }
            }
        }
        i += 1;
    }
    assert(out@ =~= packages_at(*disk, packages@, selected@, whole));
    out
}

/// The crate that counts for its name stands in this directory: the parent of its manifest, in
/// canonical form, or the root where the manifest has none.
pub open spec fn stands_in(disk: DiskFacts, root: Path, crates: Seq<CargoPackage>, dir: Path) -> bool {
    exists|i: int|
        {
            &&& 0 <= i < crates.len()
            &&& forall|j: int| i < j < crates.len() ==> (#[trigger] crates[j]).name@ != crates[i].name@
            &&& (#[trigger] crates[i]).manifest_path@.len() > 0 && crates[i].manifest_path@.last()
                != "/"@ ==> dir == normal(disk, crates[i].manifest_path@.drop_last())
            &&& !(crates[i].manifest_path@.len() > 0 && crates[i].manifest_path@.last() != "/"@)
                ==> dir == root
        }
}

/// A crate in the directory `to` names the directory `from` as the path of a dependency.
pub open spec fn depends_by_path(disk: DiskFacts, crates: Seq<CargoPackage>) -> spec_fn(Path, Path) -> bool {
    |from: Path, to: Path|
        exists|i: int, j: int| #[trigger] names_dependency(disk, crates, i, j, from, to)
}

pub open spec fn names_dependency(
    disk: DiskFacts,
    crates: Seq<CargoPackage>,
    i: int,
    j: int,
    from: Path,
    to: Path,
) -> bool {
    let manifest = crates[i].manifest_path@;
    &&& 0 <= i < crates.len()
    &&& 0 <= j < crates[i].dependencies@.len()
    &&& manifest.len() > 0 && manifest.last() != "/"@
    &&& to == normal(disk, manifest.drop_last())
    &&& crates[i].dependencies@[j].path matches Some(path)
    &&& from == normal(disk, path@)
}

/// A changed path touches the crate in this directory: it is the manifest or the lockfile of the
/// workspace, which concern every crate; or, where none of these changed, it lies below the
/// directory and below no deeper one of a crate.
pub open spec fn touches(
    disk: DiskFacts,
    root: Path,
    crates: Seq<CargoPackage>,
    changed: Seq<Path>,
    dir: Path,
) -> bool {
    if exists|i: int| #[trigger] is_workspace_file(disk, root, changed, i) {
        stands_in(disk, root, crates, dir)
    } else {
        exists|i: int| #[trigger] is_touched_by(disk, root, crates, changed, dir, i)
    }
}

pub open spec fn is_workspace_file(disk: DiskFacts, root: Path, changed: Seq<Path>, i: int) -> bool {
    let path = normal(disk, changed[i]);
    0 <= i < changed.len() && (path == root.push("Cargo.toml"@) || path == root.push("Cargo.lock"@))
}

pub open spec fn is_touched_by(
    disk: DiskFacts,
    root: Path,
    crates: Seq<CargoPackage>,
    changed: Seq<Path>,
    dir: Path,
    i: int,
) -> bool {
    let path = normal(disk, changed[i]);
    &&& 0 <= i < changed.len()
    &&& stands_in(disk, root, crates, dir)
    &&& dir.is_prefix_of(path)
    &&& forall|other: Path| #[trigger]
        stands_in(disk, root, crates, other) && other.is_prefix_of(path) ==> other.len() <= dir.len()
}

proof fn directories_by_name(
    disk: DiskFacts,
    root: Path,
    crates: Seq<CargoPackage>,
    n: int,
    name: Text,
)
    requires
        0 <= n <= crates.len(),
    ensures
        crate_dirs(disk, root, crates, n).dom().contains(name) == (exists|i: int|
            0 <= i < n && (#[trigger] crates[i]).name@ == name),
        forall|i: int|
            0 <= i < n && (#[trigger] crates[i]).name@ == name && (forall|j: int|
                i < j < n ==> (#[trigger] crates[j]).name@ != name) ==> crate_dirs(disk, root, crates, n)[name]
                == match crate_dir(disk, crates[i]) {
                Some(dir) => dir,
                None => root,
            },
    decreases n,
{
    if n > 0 {
        directories_by_name(disk, root, crates, n - 1, name);
        if crates[n - 1].name@ == name {
            assert forall|i: int|
                0 <= i < n && (#[trigger] crates[i]).name@ == name && (forall|j: int|
                    i < j < n ==> (#[trigger] crates[j]).name@ != name) implies i == n - 1 by {
                if i < n - 1 {
                    assert(crates[n - 1].name@ != name);
                }
            }
        }
    }
}

proof fn last_of_name(crates: Seq<CargoPackage>, name: Text, n: int) -> (i: int)
    requires
        0 <= n <= crates.len(),
        exists|i: int| 0 <= i < n && (#[trigger] crates[i]).name@ == name,
    ensures
        0 <= i < n,
        crates[i].name@ == name,
        forall|j: int| i < j < n ==> (#[trigger] crates[j]).name@ != name,
    decreases n,
{
    if crates[n - 1].name@ == name {
        n - 1
    } else {
        last_of_name(crates, name, n - 1)
    }
}

proof fn crates_stand_in_their_directories(
    disk: DiskFacts,
    root: Path,
    crates: Seq<CargoPackage>,
    dir: Path,
)
    ensures
        is_crate_dir(crate_dirs(disk, root, crates, crates.len() as int), dir) == stands_in(
            disk,
            root,
            crates,
            dir,
        ),
{
    let n = crates.len() as int;
    let dirs = crate_dirs(disk, root, crates, n);
    if is_crate_dir(dirs, dir) {
        let name = choose|name: Text| #[trigger] dirs.dom().contains(name) && dirs[name] == dir;
        directories_by_name(disk, root, crates, n, name);
        let i = last_of_name(crates, name, n);
        assert(crates[i].name@ == name);
    }
    if stands_in(disk, root, crates, dir) {
        let i = choose|i: int|
            {
                &&& 0 <= i < crates.len()
                &&& forall|j: int| i < j < crates.len() ==> (#[trigger] crates[j]).name@ != crates[i].name@
                &&& (#[trigger] crates[i]).manifest_path@.len() > 0 && crates[i].manifest_path@.last()
                    != "/"@ ==> dir == normal(disk, crates[i].manifest_path@.drop_last())
                &&& !(crates[i].manifest_path@.len() > 0 && crates[i].manifest_path@.last() != "/"@)
                    ==> dir == root
            };
        directories_by_name(disk, root, crates, n, crates[i].name@);
        assert(dirs.dom().contains(crates[i].name@));
    }
}

proof fn touched_crates_are_changed(
    disk: DiskFacts,
    root: Path,
    crates: Seq<CargoPackage>,
    changed: Seq<Path>,
    dir: Path,
)
    ensures
        changed_crates(
            disk,
            root,
            crate_dirs(disk, root, crates, crates.len() as int),
            changed,
        ).contains(dir) == touches(disk, root, crates, changed, dir),
{
    let dirs = crate_dirs(disk, root, crates, crates.len() as int);
    assert forall|d: Path| is_crate_dir(dirs, d) == #[trigger] stands_in(disk, root, crates, d) by {
        crates_stand_in_their_directories(disk, root, crates, d);
    }
    reveal_strlit("Cargo.toml");
    reveal_strlit("Cargo.lock");
    reveal_strlit("/");
    reveal_strlit(".");
    reveal_strlit("..");
    assert("Cargo.toml"@.len() == 10 && "Cargo.lock"@.len() == 10);
    assert forall|i: int| 0 <= i < changed.len() implies is_root_manifest(
        root,
        normal(disk, #[trigger] changed[i]),
    ) == is_workspace_file(disk, root, changed, i) by {
        let path = normal(disk, changed[i]);
        if is_root_manifest(root, path) {
            assert(path =~= path.drop_last().push(path.last()));
        }
        if is_workspace_file(disk, root, changed, i) {
            assert(path.drop_last() =~= root);
        }
    }
    if exists|i: int| #[trigger] is_workspace_file(disk, root, changed, i) {
        let i = choose|i: int| #[trigger] is_workspace_file(disk, root, changed, i);
        assert(is_root_manifest(root, normal(disk, changed[i])));
    } else {
        assert forall|i: int| 0 <= i < changed.len() implies is_deepest(
            dirs,
            normal(disk, #[trigger] changed[i]),
            dir,
        ) == is_touched_by(disk, root, crates, changed, dir, i) by {
            let path = normal(disk, changed[i]);
            if is_deepest(dirs, path, dir) {
                assert(stands_in(disk, root, crates, dir));
            }
            if is_touched_by(disk, root, crates, changed, dir, i) {
                assert(is_crate_dir(dirs, dir));
                assert forall|other: Path| #[trigger]
                    is_crate_dir(dirs, other) && other.is_prefix_of(path) implies other.len() <= dir.len() by {
                    assert(stands_in(disk, root, crates, other));
                }
            }
        }
        if exists|i: int| #[trigger] is_touched_by(disk, root, crates, changed, dir, i) {
            let i = choose|i: int| #[trigger] is_touched_by(disk, root, crates, changed, dir, i);
            assert(is_deepest(dirs, normal(disk, changed[i]), dir));
        }
    }
}

/// A change reaches the selected packages that stand in the directory of a crate which is touched
/// by it or depends on a touched one by any chain of path dependencies, and no others.
pub proof fn changes_reach_dependent_crates(
    disk: DiskFacts,
    root: Path,
    packages: Seq<Package>,
    selected: Set<Text>,
    crates: Seq<CargoPackage>,
    changed: Seq<Path>,
    name: Text,
)
    ensures
        packages_at(disk, packages, selected, reached_crates(disk, root, crates, changed)).contains(name)
            <==> selected.contains(name) && exists|k: int, start: Path|
            {
                &&& 0 <= k < packages.len()
                &&& packages[k].name@ == name
                &&& touches(disk, root, crates, changed, start)
                &&& #[trigger] reaches(
                    depends_by_path(disk, crates),
                    start,
                    normal(disk, packages[k].dir@),
                )
            },
{
    let reached = reached_crates(disk, root, crates, changed);
    let dirs = crate_dirs(disk, root, crates, crates.len() as int);
    let r = crate_uses(disk, crates);
    let q = depends_by_path(disk, crates);
    assert forall|from: Path, to: Path| #[trigger] r(from, to) == q(from, to) by {
        if r(from, to) {
            let (i, j) = choose|i: int, j: int|
                0 <= i < crates.len() && #[trigger] says_uses(disk, crates[i], j, from, to);
            assert(names_dependency(disk, crates, i, j, from, to));
        }
        if q(from, to) {
            let (i, j) = choose|i: int, j: int| #[trigger]
                names_dependency(disk, crates, i, j, from, to);
            assert(says_uses(disk, crates[i], j, from, to));
        }
    }
    assert forall|start: Path| changed_crates(disk, root, dirs, changed).contains(start) == #[trigger]
        touches(disk, root, crates, changed, start) by {
        touched_crates_are_changed(disk, root, crates, changed, start);
    }
    if packages_at(disk, packages, selected, reached).contains(name) {
        let k = choose|k: int|
            0 <= k < packages.len() && (#[trigger] packages[k]).name@ == name && selected.contains(name)
                && reached.contains(normal(disk, packages[k].dir@));
        let dir = normal(disk, packages[k].dir@);
        let start = choose|start: Path|
            changed_crates(disk, root, dirs, changed).contains(start) && #[trigger] reaches(r, start, dir);
        assert forall|x: Path, y: Path| #[trigger] r(x, y) implies q(x, y) by {}
        crate::walk::reaches_monotone(r, q, start, dir);
        assert(touches(disk, root, crates, changed, start));
    }
    if selected.contains(name) && exists|k: int, start: Path|
        {
            &&& 0 <= k < packages.len()
            &&& packages[k].name@ == name
            &&& touches(disk, root, crates, changed, start)
            &&& #[trigger] reaches(q, start, normal(disk, packages[k].dir@))
        } {
        let (k, start) = choose|k: int, start: Path|
            {
                &&& 0 <= k < packages.len()
                &&& packages[k].name@ == name
                &&& touches(disk, root, crates, changed, start)
                &&& #[trigger] reaches(q, start, normal(disk, packages[k].dir@))
            };
        let dir = normal(disk, packages[k].dir@);
        assert forall|x: Path, y: Path| #[trigger] q(x, y) implies r(x, y) by {
            assert(r(x, y) == q(x, y));
        }
        crate::walk::reaches_monotone(q, r, start, dir);
        assert(changed_crates(disk, root, dirs, changed).contains(start));
        assert(packages[k].name@ == name);
    }
}

} // verus!
