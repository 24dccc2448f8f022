//! The symbols and packages that a set of changes starts from.
use vstd::prelude::*;

use crate::analysis::symbols::{add_all_symbols, all_runtime, all_types};
use crate::collections::{union_over, union_over_all, union_over_next, union_over_none, KeyMap, KeySet};
use crate::diagnostics::{Diagnostic, Severity};
use crate::graph::links::{finding, Finding};
use crate::graph::model::DependencyGraph;
use crate::graph::node::{Node, NodeModel};
use crate::graph::targets::{target_models, TargetModel};
use crate::order::{models, Key};
use crate::path::FilePath;
use crate::text::join2;
use crate::words::texts_of;
use crate::workspace::owner::{owner_of, package_for_path, Path};
use crate::workspace::Package;

verus! {

pub type Text = Seq<char>;

/// What is said of each package that a change concerns as a whole, by the path of the change.
pub type Direct = Map<Text, Map<Path, Seq<Text>>>;

/// Where an analysis of changes starts: the changed symbols, at run time and for types, and the
/// packages that are concerned as a whole.
pub struct ChangeSeeds {
    pub nodes: KeySet<Node>,
    pub type_nodes: KeySet<Node>,
    pub direct_packages: KeyMap<String, KeyMap<FilePath, Vec<String>>>,
    pub diagnostics: Vec<Diagnostic>,
}

#[verifier::ext_equal]
pub ghost struct SeedsModel {
    pub nodes: Set<NodeModel>,
    pub type_nodes: Set<NodeModel>,
    pub direct: Direct,
    pub findings: Seq<Finding>,
}

pub open spec fn details_in(m: Map<Path, Vec<String>>) -> Map<Path, Seq<Text>> {
    Map::new(|p: Path| m.dom().contains(p), |p: Path| texts_of(m[p]@))
}

pub open spec fn direct_in(m: Map<Text, KeyMap<FilePath, Vec<String>>>) -> Direct {
    Map::new(|n: Text| m.dom().contains(n), |n: Text| details_in(m[n]@))
}

impl View for ChangeSeeds {
    type V = SeedsModel;

    open spec fn view(&self) -> SeedsModel {
        SeedsModel {
            nodes: self.nodes@,
            type_nodes: self.type_nodes@,
            direct: direct_in(self.direct_packages@),
            findings: models(self.diagnostics@),
        }
    }
}

pub open spec fn no_seeds() -> SeedsModel {
    SeedsModel {
        nodes: Set::empty(),
        type_nodes: Set::empty(),
        direct: Map::empty(),
        findings: Seq::empty(),
    }
}

/// One more package that a change concerns as a whole.
pub open spec fn noted(direct: Direct, package: Text, path: Path, details: Seq<Text>) -> Direct {
    let known = if direct.dom().contains(package) {
        direct[package]
    } else {
        Map::empty()
    };
    direct.insert(package, known.insert(path, details))
}

/// The first `n` targets, all concerned as a whole.
pub open spec fn everywhere(
    direct: Direct,
    targets: Seq<TargetModel>,
    path: Path,
    details: Seq<Text>,
    n: int,
) -> Direct
    decreases n,
{
    if n <= 0 {
        direct
    } else {
        noted(everywhere(direct, targets, path, details, n - 1), targets[n - 1].0, path, details)
    }
}

/// A module belongs to the package in this directory.
pub open spec fn belongs(packages: Seq<Package>, path: Path, dir: Path) -> bool {
    match owner_of(packages, path) {
        Some(i) => packages[i].dir@ == dir,
        None => false,
    }
}

pub open spec fn owned_runtime(graph: DependencyGraph, packages: Seq<Package>, dir: Path) -> spec_fn(
    Path,
) -> Set<NodeModel> {
    |path: Path|
        if belongs(packages, path, dir) {
            all_runtime(path, graph.modules@[path])
        } else {
            Set::empty()
        }
}

pub open spec fn owned_types(graph: DependencyGraph, packages: Seq<Package>, dir: Path) -> spec_fn(
    Path,
) -> Set<NodeModel> {
    |path: Path|
        if belongs(packages, path, dir) {
            all_types(path, graph.modules@[path])
        } else {
            Set::empty()
        }
}

/// A package that is concerned as a whole, with everything in its modules.
pub open spec fn with_package(
    s: SeedsModel,
    graph: DependencyGraph,
    packages: Seq<Package>,
    package: Package,
    path: Path,
    details: Seq<Text>,
) -> SeedsModel {
    SeedsModel {
        nodes: s.nodes.union(
            union_over(graph.modules.keys(), owned_runtime(graph, packages, package.dir@)),
        ),
        type_nodes: s.type_nodes.union(
            union_over(graph.modules.keys(), owned_types(graph, packages, package.dir@)),
        ),
        direct: noted(s.direct, package.name@, path, details),
        findings: s.findings,
    }
}

pub const UNMODELED_IMPACT: &'static str = "changed lockfile with unmodeled impact";

/// A lockfile whose change concerns every target, for this reason.
pub open spec fn with_fallback(
    s: SeedsModel,
    graph: DependencyGraph,
    path: Path,
    reason: Text,
) -> SeedsModel {
    let targets = target_models(graph.targets@);
    SeedsModel {
        direct: everywhere(
            s.direct,
            targets,
            path,
            seq![UNMODELED_IMPACT@],
            targets.len() as int,
        ),
        findings: s.findings.push(
            finding(
                "MONORIPPLE_LOCKFILE_CHANGE_UNMODELED"@,
                Severity::Warning,
                "lockfile changes conservatively affect every target because "@ + reason,
                Some(path),
                Seq::empty(),
            ),
        ),
        ..s
    }
}

/// Copies a list of texts.
pub(crate) fn copy_texts(list: &Vec<String>) -> (r: Vec<String>)
    ensures
        texts_of(r@) == texts_of(list@),
{
    let mut out: Vec<String> = Vec::new();
    let mut i: usize = 0;
    while i < list.len()
        invariant
            i <= list.len(),
            out.len() == i,
            forall|k: int| 0 <= k < i ==> (#[trigger] out@[k])@ == list@[k]@,
        decreases list.len() - i,
    {
        out.push(list[i].clone());
        i += 1;
    }
    assert(texts_of(out@) =~= texts_of(list@));
    out
}

impl ChangeSeeds {
    pub fn new() -> (r: ChangeSeeds)
        ensures
            r@ == no_seeds(),
    {
        let r = ChangeSeeds {
            nodes: KeySet::new(),
            type_nodes: KeySet::new(),
            direct_packages: KeyMap::new(),
            diagnostics: Vec::new(),
        };
        assert(direct_in(r.direct_packages@) =~= Map::empty());
        assert(models(r.diagnostics@) =~= Seq::empty());
        r
    }
}

/// Notes that a change concerns a package as a whole.
pub(crate) fn note(
    direct: &mut KeyMap<String, KeyMap<FilePath, Vec<String>>>,
    package: &str,
    path: &FilePath,
    details: Vec<String>,
)
    ensures
        direct_in(final(direct)@) == noted(
            direct_in(old(direct)@),
            package@,
            path@,
            texts_of(details@),
        ),
{
    let ghost start = direct@;
    let ghost said = texts_of(details@);
    let key = package.to_owned();
    let mut known: KeyMap<FilePath, Vec<String>> = match direct.remove(&key) {
        Some(known) => known,
        None => KeyMap::new(),
    };
    let ghost before = details_in(known@);
    assert(!start.dom().contains(package@) ==> before =~= Map::empty());
    known.insert(path.dup(), details);
    assert(details_in(known@) =~= before.insert(path@, said));
    direct.insert(key, known);
    assert(direct_in(direct@) =~= noted(direct_in(start), package@, path@, said));
}

/// Notes that a change concerns every target as a whole.
pub(crate) fn note_everywhere(
    direct: &mut KeyMap<String, KeyMap<FilePath, Vec<String>>>,
    graph: &DependencyGraph,
    path: &FilePath,
    details: &Vec<String>,
)
    ensures
        direct_in(final(direct)@) == everywhere(
            direct_in(old(direct)@),
            target_models(graph.targets@),
            path@,
            texts_of(details@),
            graph.targets@.len() as int,
        ),
{
    let ghost start = direct_in(direct@);
    let ghost targets = target_models(graph.targets@);
    let mut i: usize = 0;
    while i < graph.targets.len()
        invariant
            i <= graph.targets.len(),
            targets == target_models(graph.targets@),
            direct_in(direct@) == everywhere(
                start,
                targets,
                path@,
                texts_of(details@),
                i as int,
            ),
        decreases graph.targets.len() - i,
    {
        assert(targets[i as int].0 == graph.targets@[i as int].package@);
        note(direct, graph.targets[i].package.as_str(), path, copy_texts(details));
        i += 1;
    }
}

/// Seeds a package that a change concerns as a whole, and everything in its modules.
pub fn seed_package_input(
    result: &mut ChangeSeeds,
    graph: &DependencyGraph,
    packages: &Vec<Package>,
    package: &Package,
    path: &FilePath,
    details: Vec<String>,
)
    ensures
        final(result)@ == with_package(
            old(result)@,
            *graph,
            packages@,
            *package,
            path@,
            texts_of(details@),
        ),
{
    let ghost start = result@;
    let ghost dir = package.dir@;
    let ghost keys = graph.modules.keys();
    let ghost f = owned_runtime(*graph, packages@, dir);
    let ghost g = owned_types(*graph, packages@, dir);
    note(&mut result.direct_packages, package.name.as_str(), path, details);
    let ghost direct = result@.direct;
    let n = graph.modules.len();
    let mut i: usize = 0;
    proof {
        union_over_none(keys.take(0), f);
        union_over_none(keys.take(0), g);
        assert(start.nodes.union(Set::empty()) =~= start.nodes);
        assert(start.type_nodes.union(Set::empty()) =~= start.type_nodes);
    }
    while i < n
        invariant
            i <= n,
            n == keys.len(),
            keys == graph.modules.keys(),
            dir == package.dir@,
            f == owned_runtime(*graph, packages@, dir),
            g == owned_types(*graph, packages@, dir),
            result@.nodes == start.nodes.union(union_over(keys.take(i as int), f)),
            result@.type_nodes == start.type_nodes.union(union_over(keys.take(i as int), g)),
            result@.direct == direct,
            result@.findings == start.findings,
        decreases n - i,
    {
        let file = graph.modules.key_at(i);
        let owned = match package_for_path(packages, file) {
            Some(owner) => owner.dir.same_as(&package.dir),
            None => false,
        };
        assert(owned == belongs(packages@, file@, dir));
        if owned {
            add_all_symbols(
                &mut result.nodes,
                &mut result.type_nodes,
                file,
                graph.modules.value_at(i),
            );
        }
        proof {
            union_over_next(keys, f, i as int);
            union_over_next(keys, g, i as int);
            assert(result@.nodes =~= start.nodes.union(union_over(keys.take(i + 1), f)));
            assert(result@.type_nodes =~= start.type_nodes.union(union_over(keys.take(i + 1), g)));
        }
        i += 1;
    }
    proof {
        union_over_all(keys, f, n as int);
        union_over_all(keys, g, n as int);
    }
}

/// Seeds every target, for a lockfile whose change is not understood.
pub fn apply_lockfile_fallback(
    result: &mut ChangeSeeds,
    graph: &DependencyGraph,
    path: &FilePath,
    reason: &str,
)
    ensures
        final(result)@ == with_fallback(old(result)@, *graph, path@, reason@),
{
    let ghost start = result@;
    let mut details: Vec<String> = Vec::new();
    details.push(UNMODELED_IMPACT.to_owned());
    assert(texts_of(details@) =~= seq![UNMODELED_IMPACT@]);
    note_everywhere(&mut result.direct_packages, graph, path, &details);
    let ghost before = result.diagnostics@;
    let item = Diagnostic {
        code: "MONORIPPLE_LOCKFILE_CHANGE_UNMODELED",
        severity: Severity::Warning,
        message: join2("lockfile changes conservatively affect every target because ", reason),
        path: Some(path.dup()),
        members: Vec::new(),
    };
    let ghost m = item.model();
    result.diagnostics.push(item);
    proof {
        assert(models(item.members@) =~= Seq::empty());
        assert(models(result.diagnostics@) =~= models(before).push(m));
        assert(target_models(graph.targets@).len() == graph.targets@.len());
    }
}

/// A lockfile whose change is not understood concerns every target.
pub proof fn fallback_concerns_every_target(
    s: SeedsModel,
    graph: DependencyGraph,
    path: Path,
    reason: Text,
    i: int,
)
    requires
        0 <= i < graph.targets@.len(),
    ensures
        ({
            let after = with_fallback(s, graph, path, reason).direct;
            let package = graph.targets@[i].package@;
            after.dom().contains(package) && after[package].dom().contains(path)
                && after[package][path] == seq![UNMODELED_IMPACT@]
        }),
{
    let targets = target_models(graph.targets@);
    everywhere_holds(s.direct, targets, path, seq![UNMODELED_IMPACT@], targets.len() as int, i);
    assert(targets[i].0 == graph.targets@[i].package@);
}

proof fn everywhere_holds(
    direct: Direct,
    targets: Seq<TargetModel>,
    path: Path,
    details: Seq<Text>,
    n: int,
    i: int,
)
    requires
        0 <= i < n <= targets.len(),
    ensures
        ({
            let after = everywhere(direct, targets, path, details, n);
            let package = targets[i].0;
            after.dom().contains(package) && after[package].dom().contains(path)
                && after[package][path] == details
        }),
    decreases n,
{
    if i < n - 1 {
        everywhere_holds(direct, targets, path, details, n - 1, i);
    }
}

} // verus!
