//! From the files of a workspace to its dependency graph.
use vstd::prelude::*;

use crate::collections::KeyMap;
use crate::graph::model::{CacheStats, DependencyGraph};
use crate::graph::resolve::{normal, normalize_path, DiskFacts};
use crate::order::Key;
use crate::parser::assemble::parsed;
use crate::parser::syntax::{is_supported, parser_error, semantic_error};
use crate::parser::{parse_module, ParseError, ParsedModule};
use crate::path::{shown, FilePath};
use crate::text::same;
use crate::workspace::{Package, Target};

verus! {

/// A module that was parsed, with the path and the text that it was parsed from.
pub struct FreshModule {
    path: FilePath,
    source: String,
    module: ParsedModule,
}

impl FreshModule {
    #[verifier::type_invariant]
    spec fn is_parsed(self) -> bool {
        parsed(self.path@, self.source@, Ok(self.module))
    }

    /// The path that the module was parsed for.
    pub closed spec fn place(self) -> Seq<Seq<char>> {
        self.path@
    }

    /// The text that the module was parsed from.
    pub closed spec fn text(self) -> Seq<char> {
        self.source@
    }

    /// Parses the module at `path`.
    pub fn parse(path: &FilePath, source: &str) -> (r: Result<FreshModule, ParseError>)
        ensures
            match r {
                Ok(fresh) => fresh.place() == path@ && fresh.text() == source@,
                Err(e) => parsed(path@, source@, Err(e)),
            },
    {
        match parse_module(path, source) {
            Ok(module) => Ok(FreshModule { path: path.dup(), source: source.to_owned(), module }),
            Err(e) => Err(e),
        }
    }

    pub fn module(&self) -> (r: &ParsedModule)
        ensures
            parsed(self.place(), self.text(), Ok(*r)),
    {
        proof {
            use_type_invariant(self);
        }
        &self.module
    }

    /// The module, where it was parsed from this path and text.
    fn module_of(self, path: &FilePath, source: &str) -> (r: Option<ParsedModule>)
        ensures
            r is Some == (self.place() == path@ && self.text() == source@),
            r matches Some(module) ==> parsed(path@, source@, Ok(module)),
    {
        proof {
            use_type_invariant(&self);
        }
        if self.path.same_as(path) && same(self.source.as_str(), source) {
            Some(self.module)
        } else {
            None
        }
    }
}

/// Reads a text as the module at `path`, unless that was done before.
fn parse_unless_done(path: &FilePath, source: &str, fresh: Option<FreshModule>) -> (r: Result<
    ParsedModule,
    ParseError,
>)
    ensures
        parsed(path@, source@, r),
{
    let done = match fresh {
        Some(fresh) => fresh.module_of(path, source),
        None => None,
    };
    match done {
        Some(module) => Ok(module),
        None => parse_module(path, source),
    }
}

/// A file with its text and the module that it holds, where that was kept from an earlier build
/// or where it was parsed before.
pub struct SourceFile {
    pub path: FilePath,
    pub source: String,
    pub cached: Option<ParsedModule>,
    pub fresh: Option<FreshModule>,
}

impl SourceFile {
    pub open spec fn place(self, disk: DiskFacts) -> Seq<Seq<char>> {
        normal(disk, self.path@)
    }

    /// The module of the file was not kept, and its text cannot be parsed.
    pub open spec fn fails(self, disk: DiskFacts) -> bool {
        let name = shown(self.place(disk));
        self.cached is None && (!is_supported(name) || parser_error(name, self.source@) is Some
            || semantic_error(name, self.source@) is Some)
    }

    /// `m` is the module that the file holds: the kept one, or else the one that is parsed.
    pub open spec fn holds(self, disk: DiskFacts, m: ParsedModule) -> bool {
        match self.cached {
            Some(kept) => m == kept,
            None => parsed(self.place(disk), self.source@, Ok(m)),
        }
    }
}

/// The file `i` is the last of the first `n` that stand at `place`.
pub open spec fn is_last_at(
    files: Seq<SourceFile>,
    disk: DiskFacts,
    place: Seq<Seq<char>>,
    n: int,
    i: int,
) -> bool {
    &&& 0 <= i < n
    &&& files[i].place(disk) == place
    &&& forall|j: int| i < j < n ==> (#[trigger] files[j]).place(disk) != place
}

/// The modules are those of the first `n` files; of files at one place the last counts.
pub open spec fn are_loaded(
    files: Seq<SourceFile>,
    disk: DiskFacts,
    n: int,
    modules: Map<Seq<Seq<char>>, ParsedModule>,
) -> bool {
    &&& forall|i: int| 0 <= i < n ==> modules.dom().contains((#[trigger] files[i]).place(disk))
    &&& forall|place: Seq<Seq<char>>| #[trigger]
        modules.dom().contains(place) ==> exists|i: int|
            is_last_at(files, disk, place, n, i) && #[trigger] files[i].holds(disk, modules[place])
}

/// How many of the first `n` files were kept.
pub open spec fn kept_among(files: Seq<SourceFile>, n: int) -> nat
    decreases n,
{
    if n <= 0 {
        0
    } else if files[n - 1].cached is Some {
        kept_among(files, n - 1) + 1
    } else {
        kept_among(files, n - 1)
    }
}

proof fn kept_is_bounded(files: Seq<SourceFile>, n: int)
    requires
        0 <= n,
    ensures
        kept_among(files, n) <= n,
    decreases n,
{
    if n > 0 {
        kept_is_bounded(files, n - 1);
    }
}

/// File `i` is the first that fails, with this error.
pub open spec fn is_first_failure(
    files: Seq<SourceFile>,
    disk: DiskFacts,
    i: int,
    e: ParseError,
) -> bool {
    &&& 0 <= i < files.len()
    &&& files[i].fails(disk)
    &&& forall|j: int| 0 <= j < i ==> !(#[trigger] files[j]).fails(disk)
    &&& parsed(files[i].place(disk), files[i].source@, Err(e))
}

/// The result of building a graph: linked modules, or the error of the first file that has one.
pub open spec fn is_built(
    files: Seq<SourceFile>,
    targets: Seq<Target>,
    packages: Seq<Package>,
    disk: DiskFacts,
    r: Result<DependencyGraph, ParseError>,
) -> bool {
    match r {
        Ok(graph) => {
            &&& forall|i: int| 0 <= i < files.len() ==> !(#[trigger] files[i]).fails(disk)
            &&& are_loaded(files, disk, files.len() as int, graph.modules@)
            &&& graph.cache_stats.local_hits == kept_among(files, files.len() as int)
            &&& graph.cache_stats.misses == files.len() - kept_among(files, files.len() as int)
            &&& graph.disk == disk
            &&& graph.is_linked(targets, packages)
        },
        Err(e) => exists|i: int| #[trigger] is_first_failure(files, disk, i, e),
    }
}

impl DependencyGraph {
    /// Builds the graph of `files`, without parsing those whose module was kept or parsed before.
    pub fn build_with_cache(
        files: Vec<SourceFile>,
        targets: &Vec<Target>,
        packages: &Vec<Package>,
        disk: DiskFacts,
    ) -> (r: Result<DependencyGraph, ParseError>)
        ensures
            is_built(files@, targets@, packages@, disk, r),
    {
        let ghost all = files@;
        let count: usize = files.len();
        let mut modules: KeyMap<FilePath, ParsedModule> = KeyMap::new();
        let mut hits: usize = 0;
        let mut misses: usize = 0;
        for file in it: files
            invariant
                it.seq() == all,
                count == all.len(),
                forall|i: int| 0 <= i < it.index() ==> !(#[trigger] all[i]).fails(disk),
                are_loaded(all, disk, it.index() as int, modules@),
                hits == kept_among(all, it.index() as int),
                misses == it.index() - kept_among(all, it.index() as int),
        {
            let ghost n = it.index() as int;
            let ghost before = modules@;
            proof {
                kept_is_bounded(all, n);
                kept_is_bounded(all, n + 1);
            }
            let SourceFile { path, source, cached, fresh } = file;
            assert(all[n].path == path && all[n].source == source && all[n].cached == cached);
            let place = normalize_path(&disk, &path);
            let module: ParsedModule = match cached {
                Some(kept) => {
                    hits = hits + 1;
                    kept
                },
                None => match parse_unless_done(&place, source.as_str(), fresh) {
                    Ok(module) => {
                        misses = misses + 1;
                        module
                    },
                    Err(e) => {
                        assert(is_first_failure(all, disk, n, e));
                        return Err(e);
                    },
                },
            };
            assert(all[n].holds(disk, module));
            let ghost p = place@;
            modules.insert(place, module);
            proof {
                assert forall|q: Seq<Seq<char>>| #[trigger] modules@.dom().contains(q) implies exists|
                    i: int,
                |
                    is_last_at(all, disk, q, n + 1, i) && #[trigger] all[i].holds(disk, modules@[q]) by {
                    if q == p {
                        assert(is_last_at(all, disk, q, n + 1, n));
                        assert(all[n].holds(disk, modules@[q]));
                    } else {
                        assert(before.dom().contains(q));
                        let i = choose|i: int|
                            is_last_at(all, disk, q, n, i) && #[trigger] all[i].holds(disk, before[q]);
                        assert(is_last_at(all, disk, q, n + 1, i));
                        assert(all[i].holds(disk, modules@[q]));
                    }
                }
            }
        }
        let stats = CacheStats { local_hits: hits, misses };
        let graph = DependencyGraph::link(modules, stats, targets, packages, disk);
        Ok(graph)
    }

    /// Builds the graph of files that all have to be parsed.
    pub fn build(
        files: Vec<(FilePath, String)>,
        targets: &Vec<Target>,
        packages: &Vec<Package>,
        disk: DiskFacts,
    ) -> (r: Result<DependencyGraph, ParseError>)
        ensures
            is_built(
                files@.map_values(
                    |f: (FilePath, String)|
                        (SourceFile { path: f.0, source: f.1, cached: None, fresh: None }),
                ),
                targets@,
                packages@,
                disk,
                r,
            ),
    {
        let ghost f = |f: (FilePath, String)|
            (SourceFile { path: f.0, source: f.1, cached: None, fresh: None });
        let ghost all = files@;
        let mut list: Vec<SourceFile> = Vec::new();
        for file in it: files
            invariant
                it.seq() == all,
                f == (|f: (FilePath, String)|
                    (SourceFile { path: f.0, source: f.1, cached: None, fresh: None })),
                list@ == all.take(it.index() as int).map_values(f),
        {
            let ghost n = it.index() as int;
            let (path, source) = file;
            list.push(SourceFile { path, source, cached: None, fresh: None });
            assert(list@ =~= all.take(n + 1).map_values(f));
        }
        assert(list@ =~= all.map_values(f));
        Self::build_with_cache(list, targets, packages, disk)
    }
}

/// The same file, with nothing kept of it.
pub open spec fn forgotten(file: SourceFile) -> SourceFile {
    SourceFile { path: file.path, source: file.source, cached: None, fresh: None }
}

pub open spec fn all_forgotten(files: Seq<SourceFile>) -> Seq<SourceFile> {
    files.map_values(|f: SourceFile| forgotten(f))
}

/// What was kept of a file is what parsing it gives.
pub open spec fn is_kept_well(file: SourceFile, disk: DiskFacts) -> bool {
    file.cached is Some ==> parsed(file.place(disk), file.source@, Ok(file.cached->0))
}

proof fn none_kept(files: Seq<SourceFile>, n: int)
    requires
        0 <= n <= files.len(),
    ensures
        kept_among(all_forgotten(files), n) == 0,
    decreases n,
{
    if n > 0 {
        none_kept(files, n - 1);
    }
}

/// Kept modules make no difference: where what was kept is what parsing gives, the graph is one
/// that building from the texts alone gives, but for the count of what was kept.
pub proof fn kept_modules_change_nothing(
    files: Seq<SourceFile>,
    targets: Seq<Target>,
    packages: Seq<Package>,
    disk: DiskFacts,
    graph: DependencyGraph,
)
    requires
        files.len() <= usize::MAX,
        is_built(files, targets, packages, disk, Ok(graph)),
        forall|i: int| 0 <= i < files.len() ==> is_kept_well(#[trigger] files[i], disk),
    ensures
        is_built(
            all_forgotten(files),
            targets,
            packages,
            disk,
            Ok(
                (DependencyGraph {
                    cache_stats: (CacheStats { local_hits: 0, misses: files.len() as usize }),
                    ..graph
                }),
            ),
        ),
{
    let plain = all_forgotten(files);
    let stats = CacheStats { local_hits: 0, misses: files.len() as usize };
    let other = DependencyGraph { cache_stats: stats, ..graph };
    let n = files.len() as int;
    none_kept(files, n);
    assert forall|i: int| 0 <= i < plain.len() implies !(#[trigger] plain[i]).fails(disk) by {
        assert(plain[i] == forgotten(files[i]));
        assert(!files[i].fails(disk));
        assert(is_kept_well(files[i], disk));
    }
    assert forall|i: int| 0 <= i < n implies graph.modules@.dom().contains(
        (#[trigger] plain[i]).place(disk),
    ) by {
        assert(plain[i].place(disk) == files[i].place(disk));
    }
    assert forall|place: Seq<Seq<char>>| #[trigger]
        graph.modules@.dom().contains(place) implies exists|i: int|
        is_last_at(plain, disk, place, n, i) && #[trigger] plain[i].holds(
            disk,
            graph.modules@[place],
        ) by {
        let i = choose|i: int|
            is_last_at(files, disk, place, n, i) && #[trigger] files[i].holds(
                disk,
                graph.modules@[place],
            );
        assert(is_kept_well(files[i], disk));
        assert(plain[i] == forgotten(files[i]));
        assert(plain[i].holds(disk, graph.modules@[place]));
        assert forall|j: int| i < j < n implies (#[trigger] plain[j]).place(disk) != place by {
            assert(files[j].place(disk) != place);
        }
        assert(is_last_at(plain, disk, place, n, i));
    }
    assert(other.world() == graph.world());
    assert(other.module_edges() =~= graph.module_edges());
    assert(other.module_type_edges() =~= graph.module_type_edges());
    assert(other.module_findings() =~= graph.module_findings());
    assert(other.is_linked(targets, packages));
}

} // verus!
