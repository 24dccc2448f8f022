//! Which package a file belongs to, and which files count as sources.
use vstd::prelude::*;

use crate::order::{models, Key};
use crate::parser::assemble::{is_test_directory, is_test_path};
use crate::parser::syntax::is_source_extension;
use crate::parser::{is_source_file, is_test_file};
use crate::path::{extension_of, FilePath};
use crate::sorting::{sort, sorted};
use crate::text::same;
use crate::workspace::Package;

verus! {

pub type Path = Seq<Seq<char>>;

/// A package's directory is `path` or lies above it.
pub open spec fn covers(package: Package, path: Path) -> bool {
    package.dir@.is_prefix_of(path)
}

/// The last of the deepest packages among the first `n` that cover `path`.
pub open spec fn owner_among(packages: Seq<Package>, path: Path, n: int) -> Option<int>
    decreases n,
{
    if n <= 0 {
        None
    } else {
        let before = owner_among(packages, path, n - 1);
        if !covers(packages[n - 1], path) {
            before
        } else {
            match before {
                Some(i) => if packages[i].dir@.len() > packages[n - 1].dir@.len() {
                    Some(i)
                } else {
                    Some(n - 1)
                },
                None => Some(n - 1),
            }
        }
    }
}

/// The package that `path` belongs to.
pub open spec fn owner_of(packages: Seq<Package>, path: Path) -> Option<int> {
    owner_among(packages, path, packages.len() as int)
}

/// A path belongs to a package that covers it and lies no higher than any other that does, and
/// to none only where none covers it.
pub proof fn owner_is_the_deepest(packages: Seq<Package>, path: Path, n: int)
    requires
        0 <= n <= packages.len(),
    ensures
        match owner_among(packages, path, n) {
            Some(i) => 0 <= i < n && covers(packages[i], path) && forall|j: int|
                0 <= j < n && covers(#[trigger] packages[j], path) ==> packages[j].dir@.len()
                    <= packages[i].dir@.len(),
            None => forall|j: int| 0 <= j < n ==> !covers(#[trigger] packages[j], path),
        },
    decreases n,
{
    if n > 0 {
        owner_is_the_deepest(packages, path, n - 1);
    }
}

/// Finds the number of the package that `path` belongs to.
pub(crate) fn owner_index(packages: &Vec<Package>, path: &FilePath) -> (r: Option<usize>)
    ensures
        match r {
            Some(i) => i < packages.len() && owner_of(packages@, path@) == Some(i as int),
            None => owner_of(packages@, path@) is None,
        },
{
    let mut best: Option<usize> = None;
    let mut i: usize = 0;
    while i < packages.len()
        invariant
            i <= packages.len(),
            match best {
                Some(k) => k < i && owner_among(packages@, path@, i as int) == Some(k as int),
                None => owner_among(packages@, path@, i as int) is None,
            },
        decreases packages.len() - i,
    {
        if path.starts_with(&packages[i].dir) {
            match best {
                Some(k) => {
                    if packages[k].dir.parts.len() <= packages[i].dir.parts.len() {
                        best = Some(i);
                    }
                },
                None => {
                    best = Some(i);
                },
            }
        }
        i += 1;
    }
    best
}

/// The package that `path` belongs to: the deepest whose directory lies above it.
pub fn package_for_path<'a>(packages: &'a Vec<Package>, path: &FilePath) -> (r: Option<&'a Package>)
    ensures
        match r {
            Some(p) => match owner_of(packages@, path@) {
                Some(i) => *p == packages@[i],
                None => false,
            },
            None => owner_of(packages@, path@) is None,
        },
{
    match owner_index(packages, path) {
        Some(i) => Some(&packages[i]),
        None => None,
    }
}

/// `path` as seen from `base`; the path itself where it does not lie below.
pub open spec fn relative_to(path: Path, base: Path) -> Path {
    if base.is_prefix_of(path) {
        path.skip(base.len() as int)
    } else {
        path
    }
}

pub fn relative(path: &FilePath, base: &FilePath) -> (r: FilePath)
    ensures
        r@ == relative_to(path@, base@),
{
    match path.strip_prefix(base) {
        Some(rest) => rest,
        None => path.dup(),
    }
}

/// A directory or file whose name keeps it out of every search.
pub open spec fn is_excluded(name: Seq<char>) -> bool {
    name == ".git"@ || name == "node_modules"@ || name == "target"@ || name == "dist"@ || name
        == "build"@
}

/// Whether a search for manifests looks at what has this name.
pub fn enters_for_manifests(name: &str) -> (r: bool)
    ensures
        r == !is_excluded(name@),
{
    !(same(name, ".git") || same(name, "node_modules") || same(name, "target") || same(name, "dist")
        || same(name, "build"))
}

/// Whether a search for sources looks at what has this name.
pub fn enters_for_sources(name: &str, include_tests: bool) -> (r: bool)
    ensures
        r == (!is_excluded(name@) && (include_tests || !is_test_directory(name@))),
{
    enters_for_manifests(name) && (include_tests || !(same(name, "test") || same(name, "tests")
        || same(name, "__tests__")))
}

/// A file that counts as a source: a module that belongs to a package and, unless tests are
/// wanted, is no test in it.
pub open spec fn is_listed(packages: Seq<Package>, path: Path, include_tests: bool) -> bool {
    is_source_extension(extension_of(path)) && match owner_of(packages, path) {
        Some(i) => include_tests || !is_test_path(relative_to(path, packages[i].dir@)),
        None => false,
    }
}

/// The first `n` of the found files that count as sources.
pub open spec fn listed_among(
    packages: Seq<Package>,
    found: Seq<Path>,
    include_tests: bool,
    n: int,
) -> Seq<Path>
    decreases n,
{
    if n <= 0 {
        Seq::empty()
    } else if is_listed(packages, found[n - 1], include_tests) {
        listed_among(packages, found, include_tests, n - 1).push(found[n - 1])
    } else {
        listed_among(packages, found, include_tests, n - 1)
    }
}

/// The source files among those that a search found, in order.
pub fn discover_source_files(
    found: Vec<FilePath>,
    packages: &Vec<Package>,
    include_tests: bool,
) -> (r: Vec<FilePath>)
    ensures
        models(r@) == sorted::<FilePath>(
            listed_among(packages@, models(found@), include_tests, found@.len() as int),
        ),
{
    let ghost all = models(found@);
    let ghost given = found@;
    let mut out: Vec<FilePath> = Vec::new();
    assert(models(out@) =~= Seq::empty());
    for path in it: found
        invariant
            it.seq() == given,
            all == models(given),
            models(out@) == listed_among(packages@, all, include_tests, it.index() as int),
    {
        let ghost n = it.index() as int;
        assert(all[n] == path@);
        let listed = is_source_file(&path) && match package_for_path(packages, &path) {
            Some(package) => include_tests || !is_test_file(&relative(&path, &package.dir)),
            None => false,
        };
        if listed {
            let ghost before = models(out@);
            let ghost p = path@;
            out.push(path);
            assert(models(out@) =~= before.push(p));
        }
    }
    sort(out)
}

} // verus!
