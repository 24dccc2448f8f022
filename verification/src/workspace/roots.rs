//! The files from which tasks and tests of a package start.
use vstd::prelude::*;

use crate::collections::{ascending, first_from, pairs, KeyMap, KeySet};
use crate::graph::resolve::{normal, normalize_path, DiskFacts};
use crate::order::{chars_of, models, Key};
use crate::parser::syntax::is_source_extension;
use crate::parser::is_source_file;
use crate::path::{components, extension_of, joined_path, name_of, FilePath};
use crate::text::{join2, same, starts_with, text_between};
use crate::words::{behind_last, split_words, take_behind_last, texts_of, trim_leads, words};
use crate::workspace::manifest::below;
use crate::workspace::owner::{owner_index, owner_of, relative, relative_to, Path};
use crate::workspace::tasks::Name;
use crate::workspace::{Package, Target};

verus! {

/// A file whose name is that of a configuration of Vite.
pub open spec fn is_vite_name(path: Path) -> bool {
    match name_of(path) {
        Some(name) => "vite.config."@.is_prefix_of(name),
        None => false,
    }
}

/// The package directory holds a configuration of Vite with this extension.
pub open spec fn vite_config(dir: Path, extension: Name) -> Path {
    joined_path(dir, components("vite.config."@ + extension))
}

/// A configuration of Vite stands in the directory.
pub open spec fn has_vite_config(disk: DiskFacts, dir: Path) -> bool {
    let files = disk.files@;
    files.contains(vite_config(dir, "ts"@)) || files.contains(vite_config(dir, "mts"@))
        || files.contains(vite_config(dir, "cts"@)) || files.contains(vite_config(dir, "js"@))
        || files.contains(vite_config(dir, "mjs"@)) || files.contains(vite_config(dir, "cjs"@))
}

/// A file of the package from which a Vite build may start.
pub open spec fn is_vite_root(dir: Path, path: Path) -> bool {
    let inner = relative_to(path, dir);
    dir.is_prefix_of(path) && ((inner.len() > 0 && (inner[0] == "src"@ || inner[0] == "app"@ || inner[0]
        == "routes"@)) || is_vite_name(inner))
}

/// The first `n` files from which a Vite build may start.
pub open spec fn vite_roots(files: Seq<Path>, dir: Path, n: int) -> Seq<Path>
    decreases n,
{
    if n <= 0 {
        Seq::empty()
    } else if is_vite_root(dir, files[n - 1]) {
        vite_roots(files, dir, n - 1).push(files[n - 1])
    } else {
        vite_roots(files, dir, n - 1)
    }
}

/// Some file has this canonical form.
pub open spec fn is_represented(disk: DiskFacts, files: Seq<Path>, path: Path) -> bool {
    exists|i: int| 0 <= i < files.len() && normal(disk, #[trigger] files[i]) == path
}

pub open spec fn is_named(packages: Seq<Package>, name: Name) -> spec_fn(int) -> bool {
    |i: int| packages[i].name@ == name
}

/// The first package with this name.
pub open spec fn package_with_name(packages: Seq<Package>, name: Name) -> Option<int> {
    first_from(is_named(packages, name), 0, packages.len() as int)
}

/// How a target whose entrypoint is no known file is rooted.
pub enum Rooting {
    /// The entrypoint is known, or nothing is known of the package.
    Plain,
    /// A Vite build makes the entrypoint from files of the package.
    Vite,
    /// Cargo makes the entrypoint.
    Cargo,
}

pub open spec fn rooting(
    packages: Seq<Package>,
    files: Seq<Path>,
    disk: DiskFacts,
    t: Target,
) -> Rooting {
    if is_represented(disk, files, normal(disk, t.entrypoint@)) {
        Rooting::Plain
    } else {
        match package_with_name(packages, t.package@) {
            None => Rooting::Plain,
            Some(i) => {
                let dir = packages[i].dir@;
                if has_vite_config(disk, dir) && vite_roots(files, dir, files.len() as int).len() > 0 {
                    Rooting::Vite
                } else if disk.files@.contains(joined_path(dir, components("Cargo.toml"@))) {
                    Rooting::Cargo
                } else {
                    Rooting::Plain
                }
            },
        }
    }
}

/// The roots of the targets among the first `n` that Vite builds.
pub open spec fn built_roots(
    packages: Seq<Package>,
    targets: Seq<Target>,
    files: Seq<Path>,
    disk: DiskFacts,
    n: int,
) -> Map<Name, Seq<Path>>
    decreases n,
{
    if n <= 0 {
        Map::empty()
    } else {
        let before = built_roots(packages, targets, files, disk, n - 1);
        let t = targets[n - 1];
        if rooting(packages, files, disk, t) is Vite {
            let dir = packages[package_with_name(packages, t.package@)->0].dir@;
            before.insert(t.package@, vite_roots(files, dir, files.len() as int))
        } else {
            before
        }
    }
}

/// The targets that Cargo builds.
pub open spec fn built_outside(
    packages: Seq<Package>,
    targets: Seq<Target>,
    files: Seq<Path>,
    disk: DiskFacts,
) -> Set<Name> {
    Set::new(
        |name: Name|
            exists|i: int|
                0 <= i < targets.len() && (#[trigger] targets[i]).package@ == name && rooting(
                    packages,
                    files,
                    disk,
                    targets[i],
                ) is Cargo,
    )
}

pub open spec fn path_lists(m: Map<Name, Vec<FilePath>>) -> Map<Name, Seq<Path>> {
    m.map_values(|v: Vec<FilePath>| models(v@))
}

/// The configurations of Vite that a package may have, which have to be looked for.
pub fn vite_config_paths(dir: &FilePath) -> (r: Vec<FilePath>)
    ensures
        models(r@) == seq![
            vite_config(dir@, "ts"@),
            vite_config(dir@, "mts"@),
            vite_config(dir@, "cts"@),
            vite_config(dir@, "js"@),
            vite_config(dir@, "mjs"@),
            vite_config(dir@, "cjs"@),
        ],
{
    let mut out: Vec<FilePath> = Vec::new();
    out.push(dir.join_text(join2("vite.config.", "ts").as_str()));
    out.push(dir.join_text(join2("vite.config.", "mts").as_str()));
    out.push(dir.join_text(join2("vite.config.", "cts").as_str()));
    out.push(dir.join_text(join2("vite.config.", "js").as_str()));
    out.push(dir.join_text(join2("vite.config.", "mjs").as_str()));
    out.push(dir.join_text(join2("vite.config.", "cjs").as_str()));
    assert(models(out@) =~= seq![
        vite_config(dir@, "ts"@),
        vite_config(dir@, "mts"@),
        vite_config(dir@, "cts"@),
        vite_config(dir@, "js"@),
        vite_config(dir@, "mjs"@),
        vite_config(dir@, "cjs"@),
    ]);
    out
}

fn finds_vite_config(disk: &DiskFacts, dir: &FilePath) -> (r: bool)
    ensures
        r == has_vite_config(*disk, dir@),
{
    let list = vite_config_paths(dir);
    let ghost all = models(list@);
    assert(all.len() == 6);
    assert(list@.len() == all.len());
    assert(all[0] == list@[0]@ && all[1] == list@[1]@ && all[2] == list@[2]@ && all[3] == list@[3]@
        && all[4] == list@[4]@ && all[5] == list@[5]@);
    disk.files.contains(&list[0]) || disk.files.contains(&list[1]) || disk.files.contains(&list[2])
        || disk.files.contains(&list[3]) || disk.files.contains(&list[4]) || disk.files.contains(
        &list[5],
    )
}

fn starts_vite_build(dir: &FilePath, path: &FilePath) -> (r: bool)
    ensures
        r == is_vite_root(dir@, path@),
{
    if !path.starts_with(dir) {
        return false;
    }
    let inner = relative(path, dir);
    if inner.parts.len() > 0 {
        let first = inner.parts[0].text.as_str();
        assert(inner@[0] == first@);
        if same(first, "src") || same(first, "app") || same(first, "routes") {
            return true;
        }
    }
    match inner.file_name() {
        Some(name) => starts_with(name.as_str(), "vite.config."),
        None => false,
    }
}

fn list_vite_roots(files: &Vec<FilePath>, dir: &FilePath) -> (r: Vec<FilePath>)
    ensures
        models(r@) == vite_roots(models(files@), dir@, files@.len() as int),
{
    let ghost all = models(files@);
    let mut out: Vec<FilePath> = Vec::new();
    let mut i: usize = 0;
    assert(models(out@) =~= Seq::empty());
    while i < files.len()
        invariant
            i <= files.len(),
            all == models(files@),
            models(out@) == vite_roots(all, dir@, i as int),
        decreases files.len() - i,
    {
        assert(all[i as int] == files@[i as int]@);
        if starts_vite_build(dir, &files[i]) {
            let ghost before = models(out@);
            let item = files[i].dup();
            let ghost p = item@;
            out.push(item);
            assert(models(out@) =~= before.push(p));
        }
        i += 1;
    }
    out
}

fn canonical_files(files: &Vec<FilePath>, disk: &DiskFacts) -> (r: KeySet<FilePath>)
    ensures
        forall|p: Path| #[trigger] r@.contains(p) == is_represented(*disk, models(files@), p),
{
    let ghost all = models(files@);
    let mut out: KeySet<FilePath> = KeySet::new();
    let mut i: usize = 0;
    while i < files.len()
        invariant
            i <= files.len(),
            all == models(files@),
            forall|p: Path| #[trigger]
                out@.contains(p) == (exists|k: int|
                    0 <= k < i && normal(*disk, #[trigger] all[k]) == p),
        decreases files.len() - i,
    {
        let ghost before = out@;
        assert(all[i as int] == files@[i as int]@);
        out.insert(normalize_path(disk, &files[i]));
        proof {
            assert forall|p: Path| #[trigger]
                out@.contains(p) == (exists|k: int|
                    0 <= k < i + 1 && normal(*disk, #[trigger] all[k]) == p) by {
                assert(before.contains(p) == (exists|k: int|
                    0 <= k < i && normal(*disk, #[trigger] all[k]) == p));
                if p == normal(*disk, all[i as int]) {
                    assert(out@.contains(p));
                }
            }
        }
        i += 1;
    }
    out
}

pub(crate) fn find_named(packages: &Vec<Package>, name: &String) -> (r: Option<usize>)
    ensures
        match r {
            Some(i) => i < packages.len() && package_with_name(packages@, name@) == Some(i as int)
                && packages@[i as int].name@ == name@,
            None => package_with_name(packages@, name@) is None,
        },
{
    let ghost p = is_named(packages@, name@);
    let ghost n = packages@.len() as int;
    let mut i: usize = 0;
    while i < packages.len()
        invariant
            i <= packages.len(),
            p == is_named(packages@, name@),
            n == packages@.len(),
            first_from(p, i as int, n) == first_from(p, 0, n),
        decreases packages.len() - i,
    {
        if packages[i].name == *name {
            assert(p(i as int));
            return Some(i);
        }
        assert(!p(i as int));
        i += 1;
    }
    None
}

/// The files from which targets with a made entrypoint start, and the targets that are made
/// outside the module graph.
pub fn generated_roots_for(
    packages: &Vec<Package>,
    targets: &Vec<Target>,
    files: &Vec<FilePath>,
    disk: &DiskFacts,
) -> (r: (KeyMap<String, Vec<FilePath>>, KeySet<String>))
    ensures
        path_lists(r.0@) == built_roots(
            packages@,
            targets@,
            models(files@),
            *disk,
            targets@.len() as int,
        ),
        r.1@ == built_outside(packages@, targets@, models(files@), *disk),
{
    let known = canonical_files(files, disk);
    let ghost all = models(files@);
    let mut roots: KeyMap<String, Vec<FilePath>> = KeyMap::new();
    let mut external: KeySet<String> = KeySet::new();
    let mut i: usize = 0;
    assert(path_lists(roots@) =~= Map::empty());
    while i < targets.len()
        invariant
            i <= targets.len(),
            all == models(files@),
            forall|p: Path| #[trigger] known@.contains(p) == is_represented(*disk, all, p),
            path_lists(roots@) == built_roots(packages@, targets@, all, *disk, i as int),
            forall|name: Name| #[trigger]
                external@.contains(name) == (exists|k: int|
                    0 <= k < i && (#[trigger] targets@[k]).package@ == name && rooting(
                        packages@,
                        all,
                        *disk,
                        targets@[k],
                    ) is Cargo),
        decreases targets.len() - i,
    {
        let target = &targets[i];
        let ghost before = external@;
        let ghost kind = rooting(packages@, all, *disk, *target);
        let entrypoint = normalize_path(disk, &target.entrypoint);
        let mut outside: bool = false;
        if !known.contains(&entrypoint) {
            match find_named(packages, &target.package) {
                Some(k) => {
                    let dir = &packages[k].dir;
                    let mut done: bool = false;
                    if finds_vite_config(disk, dir) {
                        let list = list_vite_roots(files, dir);
                        if list.len() > 0 {
                            let ghost earlier = path_lists(roots@);
                            let ghost l = models(list@);
                            assert(l.len() == list@.len());
                            roots.insert(target.package.clone(), list);
                            assert(path_lists(roots@) =~= earlier.insert(target.package@, l));
                            done = true;
                        }
                    }
                    assert(done == (kind is Vite));
                    if !done && disk.files.contains(&dir.join_text("Cargo.toml")) {
                        external.insert(target.package.clone());
                        outside = true;
                    }
                },
                None => {},
            }
        }
        proof {
            assert(outside == (kind is Cargo));
            assert forall|name: Name| #[trigger]
                external@.contains(name) == (exists|k: int|
                    0 <= k < i + 1 && (#[trigger] targets@[k]).package@ == name && rooting(
                        packages@,
                        all,
                        *disk,
                        targets@[k],
                    ) is Cargo) by {
                assert(before.contains(name) == (exists|k: int|
                    0 <= k < i && (#[trigger] targets@[k]).package@ == name && rooting(
                        packages@,
                        all,
                        *disk,
                        targets@[k],
                    ) is Cargo));
                if outside && name == targets@[i as int].package@ {
                    assert(rooting(packages@, all, *disk, targets@[i as int]) is Cargo);
                }
            }
        }
        i += 1;
    }
    assert(external@ =~= built_outside(packages@, targets@, all, *disk));
    (roots, external)
}

/// A mark that may stand around a word of a command.
pub open spec fn is_mark(c: char) -> bool {
    c == '\'' || c == '"' || c == '`' || c == '(' || c == ')' || c == ',' || c == ';'
}

pub open spec fn without_front_marks(text: Name) -> Name
    decreases text.len(),
{
    if text.len() > 0 && is_mark(text[0]) {
        without_front_marks(text.skip(1))
    } else {
        text
    }
}

pub open spec fn without_back_marks(text: Name) -> Name
    decreases text.len(),
{
    if text.len() > 0 && is_mark(text.last()) {
        without_back_marks(text.drop_last())
    } else {
        text
    }
}

/// The path that a word of a command may name: without marks around it, and of an assignment
/// what is assigned.
pub open spec fn word_path(dir: Path, word: Name) -> Path {
    below(dir, behind_last(without_back_marks(without_front_marks(word)), '='))
}

/// A command names a source file of the package.
pub open spec fn command_names(disk: DiskFacts, dir: Path, command: Name, path: Path) -> bool {
    is_source_extension(extension_of(path)) && disk.files@.contains(path) && exists|i: int|
        0 <= i < words(command).len() && word_path(dir, #[trigger] words(command)[i]) == path
}

fn marks(c: char) -> (r: bool)
    ensures
        r == is_mark(c),
{
    c == '\'' || c == '"' || c == '`' || c == '(' || c == ')' || c == ',' || c == ';'
}

fn trim_marks(word: &str) -> (r: String)
    ensures
        r@ == without_back_marks(without_front_marks(word@)),
{
    let chars = chars_of(word);
    let mut from: usize = 0;
    assert(chars@.skip(0) =~= chars@);
    while from < chars.len() && marks(chars[from])
        invariant
            from <= chars.len(),
            chars@ == word@,
            without_front_marks(chars@.skip(from as int)) == without_front_marks(word@),
        decreases chars.len() - from,
    {
        assert(chars@.skip(from as int).skip(1) =~= chars@.skip(from + 1));
        from += 1;
    }
    let ghost front = chars@.skip(from as int);
    assert(front == without_front_marks(word@));
    let mut to: usize = chars.len();
    assert(chars@.subrange(from as int, to as int) =~= front);
    while to > from && marks(chars[to - 1])
        invariant
            from <= to <= chars.len(),
            without_back_marks(chars@.subrange(from as int, to as int)) == without_back_marks(front),
        decreases to,
    {
        let ghost t = chars@.subrange(from as int, to as int);
        assert(t.drop_last() =~= chars@.subrange(from as int, to - 1));
        assert(t.last() == chars@[to - 1]);
        to -= 1;
    }
    let ghost t = chars@.subrange(from as int, to as int);
    assert(t.len() > 0 ==> t.last() == chars@[to - 1]);
    text_between(&chars, from, to)
}

/// The paths that the words of a command may name, which have to be looked for.
pub fn script_paths(dir: &FilePath, command: &str) -> (r: Vec<FilePath>)
    ensures
        r@.len() == words(command@).len(),
        forall|i: int| 0 <= i < r@.len() ==> (#[trigger] r@[i])@ == word_path(dir@, words(command@)[i]),
{
    let list = split_words(command);
    let ghost all = words(command@);
    assert(all.len() == list@.len());
    let mut out: Vec<FilePath> = Vec::new();
    let mut i: usize = 0;
    while i < list.len()
        invariant
            i <= list.len(),
            out.len() == i,
            all == texts_of(list@),
            forall|k: int| 0 <= k < i ==> (#[trigger] out@[k])@ == word_path(dir@, all[k]),
        decreases list.len() - i,
    {
        assert(all[i as int] == list@[i as int]@);
        let word = trim_marks(list[i].as_str());
        let value = take_behind_last(word.as_str(), '=');
        out.push(dir.join_text(trim_leads(value.as_str(), "./").as_str()));
        i += 1;
    }
    out
}

fn add_script_sources(
    disk: &DiskFacts,
    package: &Package,
    command: &str,
    roots: &mut KeyMap<String, KeySet<FilePath>>,
)
    ensures
        forall|name: Name, p: Path| #[trigger]
            pairs::<String, FilePath>(final(roots)@).contains((name, p)) == (pairs::<
                String,
                FilePath,
            >(old(roots)@).contains((name, p)) || (name == package.name@ && command_names(
                *disk,
                package.dir@,
                command@,
                p,
            ))),
        final(roots)@.dom() == old(roots)@.dom().insert(package.name@),
{
    let ghost start = pairs::<String, FilePath>(roots@);
    let ghost dom = roots@.dom();
    if !roots.contains_key(&package.name) {
        roots.insert(package.name.clone(), KeySet::new());
        assert(pairs::<String, FilePath>(roots@) =~= start);
    }
    assert(roots@.dom() =~= dom.insert(package.name@));
    let list = script_paths(&package.dir, command);
    let ghost all = words(command@);
    let mut i: usize = 0;
    while i < list.len()
        invariant
            i <= list.len(),
            list.len() == all.len(),
            all == words(command@),
            forall|k: int|
                0 <= k < list.len() ==> (#[trigger] list@[k])@ == word_path(package.dir@, all[k]),
            roots@.dom() == dom.insert(package.name@),
            forall|name: Name, p: Path| #[trigger]
                pairs::<String, FilePath>(roots@).contains((name, p)) == (start.contains((name, p)) || (
                name == package.name@ && is_source_extension(extension_of(p)) && disk.files@.contains(
                    p,
                ) && exists|k: int| 0 <= k < i && word_path(package.dir@, #[trigger] all[k]) == p)),
        decreases list.len() - i,
    {
        let ghost before = pairs::<String, FilePath>(roots@);
        let path = &list[i];
        assert(list@[i as int]@ == word_path(package.dir@, all[i as int]));
        let fits = is_source_file(path) && disk.files.contains(path);
        if fits {
            roots.link(package.name.clone(), path.dup());
            assert(roots@.dom() =~= dom.insert(package.name@));
        }
        proof {
            assert forall|name: Name, p: Path| #[trigger]
                pairs::<String, FilePath>(roots@).contains((name, p)) == (start.contains((name, p)) || (
                name == package.name@ && is_source_extension(extension_of(p)) && disk.files@.contains(
                    p,
                ) && exists|k: int| 0 <= k < i + 1 && word_path(package.dir@, #[trigger] all[k]) == p)) by {
                assert(before.contains((name, p)) == (start.contains((name, p)) || (name
                    == package.name@ && is_source_extension(extension_of(p)) && disk.files@.contains(p)
                    && exists|k: int| 0 <= k < i && word_path(package.dir@, #[trigger] all[k]) == p)));
                if p == path@ && name == package.name@ {
                    assert(word_path(package.dir@, all[i as int]) == p);
                }
            }
        }
        i += 1;
    }
}

/// The lists hold exactly these files, each list in order.
pub open spec fn are_roots(
    m: Map<Name, Vec<FilePath>>,
    names: Set<Name>,
    files: Set<(Name, Path)>,
) -> bool {
    &&& m.dom() == names
    &&& forall|name: Name| #[trigger]
        m.dom().contains(name) ==> ascending::<FilePath>(models(m[name]@))
    &&& forall|name: Name, p: Path|
        files.contains((name, p)) == (m.dom().contains(name) && #[trigger] models(m[name]@).contains(p))
}

pub(crate) fn list_roots(roots: KeyMap<String, KeySet<FilePath>>) -> (r: KeyMap<String, Vec<FilePath>>)
    ensures
        are_roots(r@, roots@.dom(), pairs::<String, FilePath>(roots@)),
{
    let count = roots.len();
    let ghost keys = roots.keys();
    let mut out: KeyMap<String, Vec<FilePath>> = KeyMap::new();
    let mut i: usize = 0;
    assert(out@.dom() =~= keys.take(0).to_set());
    while i < count
        invariant
            i <= count,
            count == keys.len(),
            keys == roots.keys(),
            out@.dom() == keys.take(i as int).to_set(),
            forall|n: Name| #[trigger]
                out@.dom().contains(n) ==> roots@.dom().contains(n) && models(out@[n]@)
                    == roots@[n].list() && ascending::<FilePath>(roots@[n].list()),
        decreases count - i,
    {
        let set = roots.value_at(i);
        let n = set.len();
        let mut list: Vec<FilePath> = Vec::new();
        let mut k: usize = 0;
        assert(models(list@) =~= set.list().take(0));
        while k < n
            invariant
                k <= n,
                n == set.list().len(),
                models(list@) == set.list().take(k as int),
            decreases n - k,
        {
            let ghost before = models(list@);
            let item = set.at(k).dup();
            let ghost p = item@;
            list.push(item);
            assert(models(list@) =~= before.push(p));
            assert(set.list().take(k + 1) =~= set.list().take(k as int).push(set.list()[k as int]));
            k += 1;
        }
        assert(set.list().take(n as int) =~= set.list());
        out.insert(roots.key_at(i).clone(), list);
        proof {
            assert(keys.take(i + 1) =~= keys.take(i as int).push(keys[i as int]));
            crate::collections::push_to_set(keys.take(i as int), keys[i as int]);
        }
        i += 1;
    }
    proof {
        assert(keys.take(count as int) =~= keys);
        let files = pairs::<String, FilePath>(roots@);
        assert forall|name: Name, p: Path|
            files.contains((name, p)) == (out@.dom().contains(name) && #[trigger] models(
                out@[name]@,
            ).contains(p)) by {
            if out@.dom().contains(name) {
                assert(models(out@[name]@) == roots@[name].list());
                assert(roots@[name]@.contains(p) == roots@[name].list().contains(p));
            }
        }
    }
    out
}

/// A file that belongs to a package with this name.
pub open spec fn belongs_to(packages: Seq<Package>, path: Path, name: Name) -> bool {
    match owner_of(packages, path) {
        Some(i) => packages[i].name@ == name,
        None => false,
    }
}

/// Every file of a selected package, under its name.
pub open spec fn all_files(packages: Seq<Package>, selected: Set<Name>, files: Seq<Path>) -> Set<
    (Name, Path),
> {
    Set::new(
        |e: (Name, Path)|
            selected.contains(e.0) && files.contains(e.1) && belongs_to(packages, e.1, e.0),
    )
}

/// A selected package has a command for one of the tasks.
pub open spec fn has_command(
    package: Package,
    selected: Set<Name>,
    tasks: Set<Name>,
    task: Name,
) -> bool {
    selected.contains(package.name@) && tasks.contains(task) && package.scripts@.dom().contains(task)
}

/// The selected packages with a command for one of the tasks.
pub open spec fn commanded(packages: Seq<Package>, selected: Set<Name>, tasks: Set<Name>) -> Set<Name> {
    Set::new(
        |name: Name|
            exists|i: int, task: Name|
                0 <= i < packages.len() && packages[i].name@ == name && #[trigger] has_command(
                    packages[i],
                    selected,
                    tasks,
                    task,
                ),
    )
}

/// The source files that the commands of the tasks name, under the names of the packages.
pub open spec fn command_files(
    packages: Seq<Package>,
    selected: Set<Name>,
    tasks: Set<Name>,
    disk: DiskFacts,
) -> Set<(Name, Path)> {
    Set::new(
        |e: (Name, Path)|
            exists|i: int, task: Name|
                {
                    &&& 0 <= i < packages.len()
                    &&& packages[i].name@ == e.0
                    &&& #[trigger] has_command(packages[i], selected, tasks, task)
                    &&& command_names(disk, packages[i].dir@, packages[i].scripts@[task]@, e.1)
                },
    )
}

fn roots_of_all_files(packages: &Vec<Package>, selected: &KeySet<String>, files: &Vec<FilePath>) -> (r:
    KeyMap<String, KeySet<FilePath>>)
    ensures
        r@.dom() == selected@,
        pairs::<String, FilePath>(r@) == all_files(packages@, selected@, models(files@)),
{
    let ghost all = models(files@);
    let mut roots: KeyMap<String, KeySet<FilePath>> = KeyMap::new();
    let count = selected.len();
    let ghost names = selected.list();
    let mut i: usize = 0;
    assert(roots@.dom() =~= names.take(0).to_set());
    assert(pairs::<String, FilePath>(roots@) =~= Set::empty());
    while i < count
        invariant
            i <= count,
            count == names.len(),
            names == selected.list(),
            roots@.dom() == names.take(i as int).to_set(),
            pairs::<String, FilePath>(roots@) == Set::<(Name, Path)>::empty(),
        decreases count - i,
    {
        let ghost before = roots@;
        roots.insert(selected.at(i).clone(), KeySet::new());
        proof {
            assert(names.take(i + 1) =~= names.take(i as int).push(names[i as int]));
            crate::collections::push_to_set(names.take(i as int), names[i as int]);
            assert forall|e: (Name, Path)| !pairs::<String, FilePath>(roots@).contains(e) by {
                assert(!pairs::<String, FilePath>(before).contains(e));
            }
            assert(pairs::<String, FilePath>(roots@) =~= Set::empty());
        }
        i += 1;
    }
    assert(names.take(count as int) =~= names);
    let mut k: usize = 0;
    while k < files.len()
        invariant
            k <= files.len(),
            all == models(files@),
            roots@.dom() == selected@,
            forall|name: Name, p: Path| #[trigger]
                pairs::<String, FilePath>(roots@).contains((name, p)) == (selected@.contains(name)
                    && belongs_to(packages@, p, name) && exists|j: int|
                    0 <= j < k && #[trigger] all[j] == p),
        decreases files.len() - k,
    {
        let ghost before = pairs::<String, FilePath>(roots@);
        let file = &files[k];
        assert(all[k as int] == file@);
        match owner_index(packages, file) {
            Some(o) => {
                if selected.contains(&packages[o].name) {
                    roots.link(packages[o].name.clone(), file.dup());
                    assert(roots@.dom() =~= selected@);
                }
            },
            None => {},
        }
        proof {
            assert forall|name: Name, p: Path| #[trigger]
                pairs::<String, FilePath>(roots@).contains((name, p)) == (selected@.contains(name)
                    && belongs_to(packages@, p, name) && exists|j: int|
                    0 <= j < k + 1 && #[trigger] all[j] == p) by {
                assert(before.contains((name, p)) == (selected@.contains(name) && belongs_to(
                    packages@,
                    p,
                    name,
                ) && exists|j: int| 0 <= j < k && #[trigger] all[j] == p));
                if p == file@ {
                    assert(all[k as int] == p);
                }
            }
        }
        k += 1;
    }
    proof {
        let whole = all_files(packages@, selected@, all);
        assert forall|e: (Name, Path)| pairs::<String, FilePath>(roots@).contains(e) == whole.contains(e) by {
            let (name, p) = e;
            assert(pairs::<String, FilePath>(roots@).contains((name, p)) == (selected@.contains(name)
                && belongs_to(packages@, p, name) && exists|j: int|
                0 <= j < all.len() && #[trigger] all[j] == p));
        }
        assert(pairs::<String, FilePath>(roots@) =~= whole);
    }
    roots
}

fn roots_of_commands(
    packages: &Vec<Package>,
    selected: &KeySet<String>,
    tasks: &KeySet<String>,
    disk: &DiskFacts,
) -> (r: KeyMap<String, KeySet<FilePath>>)
    ensures
        r@.dom() == commanded(packages@, selected@, tasks@),
        pairs::<String, FilePath>(r@) == command_files(packages@, selected@, tasks@, *disk),
{
    let mut roots: KeyMap<String, KeySet<FilePath>> = KeyMap::new();
    let count = tasks.len();
    let ghost names = tasks.list();
    let mut i: usize = 0;
    while i < packages.len()
        invariant
            i <= packages.len(),
            count == names.len(),
            names == tasks.list(),
            forall|name: Name| #[trigger]
                roots@.dom().contains(name) == (exists|k: int, task: Name|
                    0 <= k < i && packages@[k].name@ == name && #[trigger] has_command(
                        packages@[k],
                        selected@,
                        tasks@,
                        task,
                    )),
            forall|name: Name, p: Path| #[trigger]
                pairs::<String, FilePath>(roots@).contains((name, p)) == (exists|k: int, task: Name|
                    {
                        &&& 0 <= k < i
                        &&& packages@[k].name@ == name
                        &&& #[trigger] has_command(packages@[k], selected@, tasks@, task)
                        &&& command_names(
                            *disk,
                            packages@[k].dir@,
                            packages@[k].scripts@[task]@,
                            p,
                        )
                    }),
        decreases packages.len() - i,
    {
        let package = &packages[i];
        let ghost start = roots@;
        let ghost start_pairs = pairs::<String, FilePath>(roots@);
        let chosen = selected.contains(&package.name);
        let mut t: usize = 0;
        while chosen && t < count
            invariant
                t <= count,
                i < packages.len(),
                *package == packages@[i as int],
                chosen == selected@.contains(package.name@),
                count == names.len(),
                names == tasks.list(),
                forall|name: Name| #[trigger]
                    roots@.dom().contains(name) == (start.dom().contains(name) || (name
                        == package.name@ && chosen && exists|j: int|
                        0 <= j < t && package.scripts@.dom().contains(#[trigger] names[j]))),
                forall|name: Name, p: Path| #[trigger]
                    pairs::<String, FilePath>(roots@).contains((name, p)) == (start_pairs.contains(
                        (name, p),
                    ) || (name == package.name@ && chosen && exists|j: int|
                        0 <= j < t && package.scripts@.dom().contains(#[trigger] names[j])
                            && command_names(
                            *disk,
                            package.dir@,
                            package.scripts@[names[j]]@,
                            p,
                        ))),
            decreases count - t,
        {
            let ghost before = roots@;
            let ghost before_pairs = pairs::<String, FilePath>(roots@);
            let ghost task = names[t as int];
            let found = package.scripts.get(tasks.at(t));
            let ghost has = found is Some;
            match found {
                Some(command) => {
                    add_script_sources(disk, package, command.as_str(), &mut roots);
                },
                None => {},
            }
            proof {
                assert(has == package.scripts@.dom().contains(task));
                assert forall|name: Name| #[trigger]
                    roots@.dom().contains(name) == (start.dom().contains(name) || (name
                        == package.name@ && chosen && exists|j: int|
                        0 <= j < t + 1 && package.scripts@.dom().contains(#[trigger] names[j]))) by {
                    assert(before.dom().contains(name) == (start.dom().contains(name) || (name
                        == package.name@ && chosen && exists|j: int|
                        0 <= j < t && package.scripts@.dom().contains(#[trigger] names[j]))));
                    if has {
                        assert(package.scripts@.dom().contains(names[t as int]));
                    }
                }
                assert forall|name: Name, p: Path| #[trigger]
                    pairs::<String, FilePath>(roots@).contains((name, p)) == (start_pairs.contains(
                        (name, p),
                    ) || (name == package.name@ && chosen && exists|j: int|
                        0 <= j < t + 1 && package.scripts@.dom().contains(#[trigger] names[j])
                            && command_names(
                            *disk,
                            package.dir@,
                            package.scripts@[names[j]]@,
                            p,
                        ))) by {
                    assert(before_pairs.contains((name, p)) == (start_pairs.contains((name, p)) || (name
                        == package.name@ && chosen && exists|j: int|
                        0 <= j < t && package.scripts@.dom().contains(#[trigger] names[j])
                            && command_names(
                            *disk,
                            package.dir@,
                            package.scripts@[names[j]]@,
                            p,
                        ))));
                    if has {
                        assert(package.scripts@.dom().contains(names[t as int]));
                    }
                }
            }
            t += 1;
        }
        proof {
            assert forall|name: Name| #[trigger]
                roots@.dom().contains(name) == (exists|k: int, task: Name|
                    0 <= k < i + 1 && packages@[k].name@ == name && #[trigger] has_command(
                        packages@[k],
                        selected@,
                        tasks@,
                        task,
                    )) by {
                assert(start.dom().contains(name) == (exists|k: int, task: Name|
                    0 <= k < i && packages@[k].name@ == name && #[trigger] has_command(
                        packages@[k],
                        selected@,
                        tasks@,
                        task,
                    )));
                if name == package.name@ && chosen && exists|j: int|
                    0 <= j < t && package.scripts@.dom().contains(#[trigger] names[j]) {
                    let j = choose|j: int|
                        0 <= j < t && package.scripts@.dom().contains(#[trigger] names[j]);
                    assert(names.contains(names[j]));
                    assert(has_command(packages@[i as int], selected@, tasks@, names[j]));
                }
                if exists|k: int, task: Name|
                    0 <= k < i + 1 && packages@[k].name@ == name && #[trigger] has_command(
                        packages@[k],
                        selected@,
                        tasks@,
                        task,
                    ) {
                    let (k, task) = choose|k: int, task: Name|
                        0 <= k < i + 1 && packages@[k].name@ == name && #[trigger] has_command(
                            packages@[k],
                            selected@,
                            tasks@,
                            task,
                        );
                    if k == i {
                        let j = choose|j: int| 0 <= j < names.len() && names[j] == task;
                        assert(package.scripts@.dom().contains(names[j]));
                    } else {
                        assert(has_command(packages@[k], selected@, tasks@, task));
                    }
                }
            }
            assert forall|name: Name, p: Path| #[trigger]
                pairs::<String, FilePath>(roots@).contains((name, p)) == (exists|k: int, task: Name|
                    {
                        &&& 0 <= k < i + 1
                        &&& packages@[k].name@ == name
                        &&& #[trigger] has_command(packages@[k], selected@, tasks@, task)
                        &&& command_names(
                            *disk,
                            packages@[k].dir@,
                            packages@[k].scripts@[task]@,
                            p,
                        )
                    }) by {
                assert(start_pairs.contains((name, p)) == (exists|k: int, task: Name|
                    {
                        &&& 0 <= k < i
                        &&& packages@[k].name@ == name
                        &&& #[trigger] has_command(packages@[k], selected@, tasks@, task)
                        &&& command_names(
                            *disk,
                            packages@[k].dir@,
                            packages@[k].scripts@[task]@,
                            p,
                        )
                    }));
                if name == package.name@ && chosen && exists|j: int|
                    0 <= j < t && package.scripts@.dom().contains(#[trigger] names[j]) && command_names(
                        *disk,
                        package.dir@,
                        package.scripts@[names[j]]@,
                        p,
                    ) {
                    let j = choose|j: int|
                        0 <= j < t && package.scripts@.dom().contains(#[trigger] names[j])
                            && command_names(
                            *disk,
                            package.dir@,
                            package.scripts@[names[j]]@,
                            p,
                        );
                    assert(names.contains(names[j]));
                    assert(has_command(packages@[i as int], selected@, tasks@, names[j]));
                }
                if exists|k: int, task: Name|
                    {
                        &&& 0 <= k < i + 1
                        &&& packages@[k].name@ == name
                        &&& #[trigger] has_command(packages@[k], selected@, tasks@, task)
                        &&& command_names(
                            *disk,
                            packages@[k].dir@,
                            packages@[k].scripts@[task]@,
                            p,
                        )
                    } {
                    let (k, task) = choose|k: int, task: Name|
                        {
                            &&& 0 <= k < i + 1
                            &&& packages@[k].name@ == name
                            &&& #[trigger] has_command(packages@[k], selected@, tasks@, task)
                            &&& command_names(
                                *disk,
                                packages@[k].dir@,
                                packages@[k].scripts@[task]@,
                                p,
                            )
                        };
                    if k == i {
                        let j = choose|j: int| 0 <= j < names.len() && names[j] == task;
                        assert(package.scripts@.dom().contains(names[j]));
                    } else {
                        assert(has_command(packages@[k], selected@, tasks@, task));
                    }
                }
            }
        }
        i += 1;
    }
    proof {
        assert(roots@.dom() =~= commanded(packages@, selected@, tasks@));
        let whole = command_files(packages@, selected@, tasks@, *disk);
        assert forall|e: (Name, Path)| pairs::<String, FilePath>(roots@).contains(e) == whole.contains(e) by {
            let (name, p) = e;
            assert(pairs::<String, FilePath>(roots@).contains((name, p)) == (exists|k: int, task: Name|
                {
                    &&& 0 <= k < packages@.len()
                    &&& packages@[k].name@ == name
                    &&& #[trigger] has_command(packages@[k], selected@, tasks@, task)
                    &&& command_names(*disk, packages@[k].dir@, packages@[k].scripts@[task]@, p)
                }));
        }
        assert(pairs::<String, FilePath>(roots@) =~= whole);
    }
    roots
}

/// The files from which a task of the selected packages starts: all their files, or those that
/// their commands name.
pub fn task_roots_for(
    packages: &Vec<Package>,
    selected: &KeySet<String>,
    task_names: &KeySet<String>,
    files: &Vec<FilePath>,
    include_all_files: bool,
    disk: &DiskFacts,
) -> (r: KeyMap<String, Vec<FilePath>>)
    ensures
        if include_all_files {
            are_roots(r@, selected@, all_files(packages@, selected@, models(files@)))
        } else {
            are_roots(
                r@,
                commanded(packages@, selected@, task_names@),
                command_files(packages@, selected@, task_names@, *disk),
            )
        },
{
    if include_all_files {
        list_roots(roots_of_all_files(packages, selected, files))
    } else {
        list_roots(roots_of_commands(packages, selected, task_names, disk))
    }
}

} // verus!
