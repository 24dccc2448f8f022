//! Finding the file that an import request names.
use vstd::prelude::*;

use crate::collections::{KeyMap, KeySet};
use crate::order::{models, Key};
use crate::parser::ParsedModule;
use crate::path::{components, extension_of, joined_path, parent_of, shown, with_extension, FilePath};
use crate::text::{behind, join2, join3, same, starts_with_char, strip_prefix, trim_leading, without_leading};

verus! {

/// The components of a path after lexical cleaning: `.` is dropped, and `..` drops the name in
/// front of it, or disappears at the root.
pub open spec fn cleaned(path: Seq<Seq<char>>) -> Seq<Seq<char>> {
    let out = cleaned_prefix(path, path.len() as int);
    if out.len() == 0 {
        seq!["."@]
    } else {
        out
    }
}

pub open spec fn cleaned_prefix(path: Seq<Seq<char>>, n: int) -> Seq<Seq<char>>
    decreases n,
{
    if n <= 0 {
        Seq::empty()
    } else {
        let out = cleaned_prefix(path, n - 1);
        let part = path[n - 1];
        if part == "."@ {
            out
        } else if part == ".."@ && out.len() > 0 && out.last() == "/"@ {
            out
        } else if part == ".."@ && out.len() > 0 && out.last() != ".."@ {
            out.drop_last()
        } else {
            out.push(part)
        }
    }
}

/// `path_clean::clean`: cleans a path without looking at the disk. The contract speaks of the
/// components of the path that comes back, where `/` separates them as on Unix; a build for
/// Windows gives back a text with other separators.
#[verifier::external_body]
fn clean_text(path: &str) -> (r: String)
    ensures
        components(r@) == cleaned(components(path@)),
{
    path_clean::clean(path).to_string_lossy().into_owned()
}

/// What was found out about the disk: the canonical forms of paths that have one, which paths
/// are files, and where the module resolver found a request made from a directory.
pub struct DiskFacts {
    pub canonical: KeyMap<FilePath, FilePath>,
    pub files: KeySet<FilePath>,
    pub lookups: KeyMap<(FilePath, String), FilePath>,
}

/// A path in its canonical form, or as it is where it has none.
pub open spec fn normal(disk: DiskFacts, path: Seq<Seq<char>>) -> Seq<Seq<char>> {
    if disk.canonical@.dom().contains(path) {
        disk.canonical@[path]@
    } else {
        path
    }
}

pub fn normalize_path(disk: &DiskFacts, path: &FilePath) -> (r: FilePath)
    ensures
        r@ == normal(*disk, path@),
{
    match disk.canonical.get(path) {
        Some(found) => found.dup(),
        None => path.dup(),
    }
}

/// Where the module resolver found `request` from `directory`, in canonical form.
pub open spec fn looked_up(disk: DiskFacts, directory: Seq<Seq<char>>, request: Seq<char>) -> Option<
    Seq<Seq<char>>,
> {
    if disk.lookups@.dom().contains((directory, request)) {
        Some(normal(disk, disk.lookups@[(directory, request)]@))
    } else {
        None
    }
}

fn resolve_from_directory(disk: &DiskFacts, directory: &FilePath, request: &str) -> (r: Option<
    FilePath,
>)
    ensures
        match r {
            Some(path) => looked_up(*disk, directory@, request@) == Some(path@),
            None => looked_up(*disk, directory@, request@) is None,
        },
{
    let key = (directory.dup(), request.to_owned());
    match disk.lookups.get(&key) {
        Some(found) => Some(normalize_path(disk, found)),
        None => None,
    }
}

/// A package of the workspace as imports see it, with canonical paths.
pub struct WorkspacePackage {
    pub name: String,
    pub dir: FilePath,
    pub entrypoint: Option<FilePath>,
    pub exports: KeyMap<String, FilePath>,
}

/// The same as a mathematical value.
#[verifier::ext_equal]
pub ghost struct MemberModel {
    pub name: Seq<char>,
    pub dir: Seq<Seq<char>>,
    pub entrypoint: Option<Seq<Seq<char>>>,
    pub exports: Map<Seq<char>, Seq<Seq<char>>>,
}

impl View for WorkspacePackage {
    type V = MemberModel;

    open spec fn view(&self) -> MemberModel {
        MemberModel {
            name: self.name@,
            dir: self.dir@,
            entrypoint: self.entrypoint.model(),
            exports: self.exports@.map_values(|p: FilePath| p@),
        }
    }
}

pub open spec fn members(packages: Seq<WorkspacePackage>) -> Seq<MemberModel> {
    packages.map_values(|p: WorkspacePackage| p@)
}

/// A request names a package: it is the package's name, or the name with a path behind it.
pub open spec fn names_package(request: Seq<char>, name: Seq<char>) -> bool {
    request == name || match behind(request, name) {
        Some(rest) => rest.len() > 0 && rest[0] == '/',
        None => false,
    }
}

fn request_names(request: &str, name: &str) -> (r: bool)
    ensures
        r == names_package(request@, name@),
{
    if same(request, name) {
        return true;
    }
    match strip_prefix(request, name) {
        Some(rest) => starts_with_char(rest.as_str(), '/'),
        None => false,
    }
}

/// The first package from `i` on that a request names.
pub open spec fn package_named(packages: Seq<MemberModel>, request: Seq<char>, i: int) -> Option<int>
    decreases packages.len() - i,
{
    if i < 0 || i >= packages.len() {
        None
    } else if names_package(request, packages[i].name) {
        Some(i)
    } else {
        package_named(packages, request, i + 1)
    }
}

pub(crate) fn find_package(packages: &Vec<WorkspacePackage>, request: &str) -> (r: Option<usize>)
    ensures
        match r {
            Some(i) => i < packages.len() && package_named(members(packages@), request@, 0) == Some(
                i as int,
            ),
            None => package_named(members(packages@), request@, 0) is None,
        },
{
    let ghost all = members(packages@);
    let mut i: usize = 0;
    while i < packages.len()
        invariant
            i <= packages.len(),
            all == members(packages@),
            package_named(all, request@, i as int) == package_named(all, request@, 0),
        decreases packages.len() - i,
    {
        assert(all[i as int].name == packages@[i as int].name@);
        if request_names(request, packages[i].name.as_str()) {
            return Some(i);
        }
        i += 1;
    }
    None
}

/// The part of a request behind the package's name, without leading slashes.
pub open spec fn subpath_of(request: Seq<char>, name: Seq<char>) -> Seq<char> {
    match behind(request, name) {
        Some(rest) => without_leading(rest, '/'),
        None => Seq::empty(),
    }
}

/// The key of a package's export map for a subpath.
pub open spec fn export_key(subpath: Seq<char>) -> Seq<char> {
    if subpath.len() == 0 {
        "."@
    } else {
        "./"@ + subpath
    }
}

/// The file that a package declares for a subpath, or that the resolver finds below its
/// directory.
pub open spec fn package_file(disk: DiskFacts, package: MemberModel, subpath: Seq<char>) -> Option<
    Seq<Seq<char>>,
> {
    if package.exports.dom().contains(export_key(subpath)) {
        Some(package.exports[export_key(subpath)])
    } else if subpath.len() == 0 {
        package.entrypoint
    } else {
        looked_up(disk, package.dir, "./"@ + subpath)
    }
}

/// The extensions that are tried on a request without one, in order.
pub open spec fn tried_extensions() -> Seq<Seq<char>> {
    seq!["ts"@, "tsx"@, "mts"@, "cts"@, "js"@, "jsx"@, "mjs"@, "cjs"@]
}

/// For the first `n` tried extensions: the path with the extension appended, then the index file
/// below it.
pub open spec fn guesses(requested: Seq<Seq<char>>, n: int) -> Seq<Seq<Seq<char>>>
    decreases n,
{
    if n <= 0 {
        Seq::empty()
    } else {
        let extension = tried_extensions()[n - 1];
        guesses(requested, n - 1).push(components(shown(requested) + "."@ + extension)).push(
            with_extension(joined_path(requested, components("index"@)), extension),
        )
    }
}

/// The files that a relative request may stand for, in the order in which they are tried.
pub open spec fn candidates(requested: Seq<Seq<char>>) -> Seq<Seq<Seq<char>>> {
    match extension_of(requested) {
        Some(e) => {
            if e == "js"@ {
                seq![with_extension(requested, "ts"@), with_extension(requested, "tsx"@), requested]
            } else if e == "mjs"@ {
                seq![with_extension(requested, "mts"@), requested]
            } else if e == "cjs"@ {
                seq![with_extension(requested, "cts"@), requested]
            } else if e == "ts"@ || e == "tsx"@ || e == "mts"@ || e == "cts"@ || e == "jsx"@ || e
                == "json"@ {
                seq![requested]
            } else {
                seq![requested] + guesses(requested, 8)
            }
        },
        None => seq![requested] + guesses(requested, 8),
    }
}

fn push_guess(out: &mut Vec<FilePath>, requested: &FilePath, extension: &str, Ghost(n): Ghost<int>)
    requires
        0 <= n < 8,
        extension@ == tried_extensions()[n],
        models(old(out)@) == seq![requested@] + guesses(requested@, n),
    ensures
        models(final(out)@) == seq![requested@] + guesses(requested@, n + 1),
{
    let ghost before = models(out@);
    let shown_text = requested.display();
    let first = FilePath::parse(join3(shown_text.as_str(), ".", extension).as_str());
    let second = requested.join_text("index").with_extension(extension);
    out.push(first);
    out.push(second);
    assert(models(out@) =~= before.push(first@).push(second@));
    assert(models(out@) =~= seq![requested@] + guesses(requested@, n + 1));
}

/// The path that a relative request spells from `directory`.
pub(crate) fn requested_path(directory: &FilePath, request: &str) -> (r: FilePath)
    ensures
        r@ == cleaned(components(shown(joined_path(directory@, components(request@))))),
{
    let joined = directory.join_text(request);
    FilePath::parse(clean_text(joined.display().as_str()).as_str())
}

pub(crate) fn list_candidates(requested: FilePath) -> (r: Vec<FilePath>)
    ensures
        models(r@) == candidates(requested@),
{
    let mut out: Vec<FilePath> = Vec::new();
    let known = match requested.extension() {
        Some(extension) => {
            let e = extension.as_str();
            if same(e, "js") {
                out.push(requested.with_extension("ts"));
                out.push(requested.with_extension("tsx"));
                true
            } else if same(e, "mjs") {
                out.push(requested.with_extension("mts"));
                true
            } else if same(e, "cjs") {
                out.push(requested.with_extension("cts"));
                true
            } else {
                same(e, "ts") || same(e, "tsx") || same(e, "mts") || same(e, "cts") || same(
                    e,
                    "jsx",
                ) || same(e, "json")
            }
        },
        None => false,
    };
    if known {
        out.push(requested);
        assert(models(out@) =~= candidates(requested@));
        return out;
    }
    out.push(requested.dup());
    assert(models(out@) =~= seq![requested@] + guesses(requested@, 0));
    push_guess(&mut out, &requested, "ts", Ghost(0));
    push_guess(&mut out, &requested, "tsx", Ghost(1));
    push_guess(&mut out, &requested, "mts", Ghost(2));
    push_guess(&mut out, &requested, "cts", Ghost(3));
    push_guess(&mut out, &requested, "js", Ghost(4));
    push_guess(&mut out, &requested, "jsx", Ghost(5));
    push_guess(&mut out, &requested, "mjs", Ghost(6));
    push_guess(&mut out, &requested, "cjs", Ghost(7));
    out
}

/// What resolving a request depends on: the modules that are known, the packages of the
/// workspace and the disk.
pub struct Scope<'a> {
    pub modules: &'a KeyMap<FilePath, ParsedModule>,
    pub packages: &'a Vec<WorkspacePackage>,
    pub disk: &'a DiskFacts,
}

/// The same as a mathematical value.
pub ghost struct World {
    pub modules: Map<Seq<Seq<char>>, ParsedModule>,
    pub packages: Seq<MemberModel>,
    pub disk: DiskFacts,
}

impl<'a> View for Scope<'a> {
    type V = World;

    open spec fn view(&self) -> World {
        World { modules: self.modules@, packages: members(self.packages@), disk: *self.disk }
    }
}

impl World {
    /// A path that is a known module or a file.
    pub open spec fn exists_at(self, path: Seq<Seq<char>>) -> bool {
        self.modules.dom().contains(path) || self.disk.files@.contains(path)
    }

    /// The first candidate from `i` on whose canonical form exists.
    pub open spec fn first_existing(self, list: Seq<Seq<Seq<char>>>, i: int) -> Option<
        Seq<Seq<char>>,
    >
        decreases list.len() - i,
    {
        if i < 0 || i >= list.len() {
            None
        } else if self.exists_at(normal(self.disk, list[i])) {
            Some(normal(self.disk, list[i]))
        } else {
            self.first_existing(list, i + 1)
        }
    }

    /// The file that a package of the workspace holds for `request`.
    pub open spec fn in_packages(self, request: Seq<char>) -> Option<Seq<Seq<char>>> {
        match package_named(self.packages, request, 0) {
            Some(i) => {
                let package = self.packages[i];
                match package_file(self.disk, package, subpath_of(request, package.name)) {
                    Some(path) => if self.exists_at(path) {
                        Some(path)
                    } else {
                        None
                    },
                    None => None,
                }
            },
            None => None,
        }
    }

    /// The file that `request` means in the module at `importer`: a file of the package it
    /// names; for a relative request the first existing candidate; for one that starts with `/`
    /// or `#` what the resolver finds; nothing for any other.
    pub open spec fn resolve(self, importer: Seq<Seq<char>>, request: Seq<char>) -> Option<
        Seq<Seq<char>>,
    > {
        match self.in_packages(request) {
            Some(path) => Some(path),
            None => match parent_of(importer) {
                None => None,
                Some(directory) => {
                    if request.len() > 0 && request[0] == '.' {
                        let requested = cleaned(
                            components(shown(joined_path(directory, components(request)))),
                        );
                        self.first_existing(candidates(requested), 0)
                    } else if request.len() > 0 && (request[0] == '/' || request[0] == '#') {
                        match looked_up(self.disk, directory, request) {
                            Some(path) => if self.exists_at(path) {
                                Some(path)
                            } else {
                                None
                            },
                            None => None,
                        }
                    } else {
                        None
                    }
                },
            },
        }
    }

    pub open spec fn is_workspace_request(self, request: Seq<char>) -> bool {
        package_named(self.packages, request, 0) is Some
    }

    /// A request that must lead to a file of the workspace.
    pub open spec fn is_internal(self, request: Seq<char>) -> bool {
        (request.len() > 0 && (request[0] == '.' || request[0] == '/' || request[0] == '#'))
            || self.is_workspace_request(request)
    }
}

impl<'a> Scope<'a> {
    fn exists_at(&self, path: &FilePath) -> (r: bool)
        ensures
            r == self@.exists_at(path@),
    {
        self.modules.contains_key(path) || self.disk.files.contains(path)
    }

    fn first_existing(&self, list: &Vec<FilePath>) -> (r: Option<FilePath>)
        ensures
            r.model() == self@.first_existing(models(list@), 0),
    {
        let ghost all = models(list@);
        let mut i: usize = 0;
        while i < list.len()
            invariant
                i <= list.len(),
                all == models(list@),
                self@.first_existing(all, i as int) == self@.first_existing(all, 0),
            decreases list.len() - i,
        {
            let candidate = normalize_path(self.disk, &list[i]);
            if self.exists_at(&candidate) {
                return Some(candidate);
            }
            i += 1;
        }
        None
    }

    fn in_packages(&self, request: &str) -> (r: Option<FilePath>)
        ensures
            r.model() == self@.in_packages(request@),
    {
        match find_package(self.packages, request) {
            Some(i) => {
                let package = &self.packages[i];
                assert(self@.packages[i as int] == package@);
                let rest = match strip_prefix(request, package.name.as_str()) {
                    Some(rest) => rest,
                    None => String::new(),
                };
                let subpath = trim_leading(rest.as_str(), '/');
                proof {
                    if behind(request@, package.name@) is None {
                        assert(rest@ =~= Seq::<char>::empty());
                        assert(subpath@ =~= Seq::<char>::empty());
                    }
                }
                let key = if subpath.as_str().is_empty() {
                    ".".to_owned()
                } else {
                    join2("./", subpath.as_str())
                };
                let candidate = match package.exports.get(&key) {
                    Some(path) => Some(path.dup()),
                    None => if subpath.as_str().is_empty() {
                        package.entrypoint.dup()
                    } else {
                        resolve_from_directory(self.disk, &package.dir, key.as_str())
                    },
                };
                match candidate {
                    Some(path) => if self.exists_at(&path) {
                        Some(path)
                    } else {
                        None
                    },
                    None => None,
                }
            },
            None => None,
        }
    }

    pub fn resolve(&self, importer: &FilePath, request: &str) -> (r: Option<FilePath>)
        ensures
            r.model() == self@.resolve(importer@, request@),
    {
        match self.in_packages(request) {
            Some(path) => {
                return Some(path);
            },
            None => {},
        }
        let directory = match importer.parent() {
            Some(directory) => directory,
            None => {
                return None;
            },
        };
        if starts_with_char(request, '.') {
            return self.first_existing(&list_candidates(requested_path(&directory, request)));
        }
        if !starts_with_char(request, '/') && !starts_with_char(request, '#') {
            return None;
        }
        match resolve_from_directory(self.disk, &directory, request) {
            Some(path) => if self.exists_at(&path) {
                Some(path)
            } else {
                None
            },
            None => None,
        }
    }

    pub fn request_is_workspace_package(&self, request: &str) -> (r: bool)
        ensures
            r == self@.is_workspace_request(request@),
    {
        find_package(self.packages, request).is_some()
    }

    pub fn request_is_internal(&self, request: &str) -> (r: bool)
        ensures
            r == self@.is_internal(request@),
    {
        starts_with_char(request, '.') || starts_with_char(request, '/') || starts_with_char(
            request,
            '#',
        ) || self.request_is_workspace_package(request)
    }
}

} // verus!
