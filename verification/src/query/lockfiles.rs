//! Findings about changed lockfiles.
use vstd::prelude::*;

use crate::analysis::ChangeTexts;
use crate::diagnostics::{Diagnostic, Severity};
use crate::graph::links::{finding, findings_in, report, Finding};
use crate::order::{models, Key};
use crate::package_manager::{manager_of, package_manager_for, PackageManager};
use crate::path::{name_of, parent_of, FilePath};
use crate::text::same;
use crate::workspace::owner::Path;

verus! {

pub const LOCKFILE_NOTE: &'static str = "lockfile changes conservatively affect targets because exact runtime consumers are not modeled";

/// A lockfile, of a package manager or of Cargo, in whichever directory.
pub open spec fn is_lockfile(path: Path) -> bool {
    match name_of(path) {
        Some(name) => manager_of(name) is Some || name == "Cargo.lock"@,
        None => false,
    }
}

/// One of the findings is about a file.
pub open spec fn is_told_of(told: Seq<Finding>, path: Path) -> bool {
    exists|i: int| 0 <= i < told.len() && (#[trigger] told[i]).1.1.1.0 == Some(path)
}

/// A changed lockfile that was attributed to packages: it is the one of pnpm at the root, and
/// nothing that was found about the changes is about it.
pub open spec fn is_modeled(root: Path, path: Path, told: Seq<Finding>) -> bool {
    &&& parent_of(path) == Some(root)
    &&& name_of(path) is Some && manager_of(name_of(path)->0) == Some(PackageManager::Pnpm)
    &&& !is_told_of(told, path)
}

pub open spec fn lockfile_finding(path: Path) -> Finding {
    finding(
        "MONORIPPLE_LOCKFILE_CHANGE_UNMODELED"@,
        Severity::Warning,
        LOCKFILE_NOTE@,
        Some(path),
        Seq::empty(),
    )
}

/// One finding for every changed lockfile, in whichever directory, that is not modeled.
pub open spec fn lockfile_findings(
    root: Path,
    changes: Seq<ChangeTexts>,
    told: Seq<Finding>,
) -> Set<Finding> {
    Set::new(
        |f: Finding|
            exists|i: int|
                0 <= i < changes.len() && is_lockfile((#[trigger] changes[i]).path()) && !is_modeled(
                    root,
                    changes[i].path(),
                    told,
                ) && f == lockfile_finding(changes[i].path()),
    )
}

fn has_lockfile_name(path: &FilePath) -> (r: bool)
    ensures
        r == is_lockfile(path@),
{
    match path.file_name() {
        Some(name) => package_manager_for(name.as_str()).is_some() || same(
            name.as_str(),
            "Cargo.lock",
        ),
        None => false,
    }
}

fn is_about(found: &Diagnostic, path: &FilePath) -> (r: bool)
    ensures
        r == (found.model().1.1.1.0 == Some(path@)),
{
    match &found.path {
        Some(p) => p.same_as(path),
        None => false,
    }
}

fn was_told(told: &Vec<Diagnostic>, path: &FilePath) -> (r: bool)
    ensures
        r == is_told_of(models(told@), path@),
{
    let ghost all = models(told@);
    let mut i: usize = 0;
    while i < told.len()
        invariant
            i <= told.len(),
            all == models(told@),
            forall|k: int| 0 <= k < i ==> (#[trigger] all[k]).1.1.1.0 != Some(path@),
        decreases told.len() - i,
    {
        assert(all[i as int] == told@[i as int].model());
        if is_about(&told[i], path) {
            return true;
        }
        i += 1;
    }
    false
}

fn was_modeled(root: &FilePath, path: &FilePath, told: &Vec<Diagnostic>) -> (r: bool)
    ensures
        r == is_modeled(root@, path@, models(told@)),
{
    let at_root = match path.parent() {
        Some(dir) => dir.same_as(root),
        None => false,
    };
    let of_pnpm = match path.file_name() {
        Some(name) => match package_manager_for(name.as_str()) {
            Some(PackageManager::Pnpm) => true,
            _ => false,
        },
        None => false,
    };
    at_root && of_pnpm && !was_told(told, path)
}

/// Adds a finding for every changed lockfile that is not modeled. `told` is what was found about
/// the changes.
pub fn report_lockfiles(
    list: &mut Vec<Diagnostic>,
    root: &FilePath,
    changes: &Vec<ChangeTexts>,
    told: &Vec<Diagnostic>,
)
    ensures
        findings_in(final(list)@) == findings_in(old(list)@).union(
            lockfile_findings(root@, changes@, models(told@)),
        ),
{
    let ghost start = findings_in(list@);
    let ghost known = models(told@);
    let mut i: usize = 0;
    while i < changes.len()
        invariant
            i <= changes.len(),
            known == models(told@),
            forall|f: Finding| #[trigger]
                findings_in(list@).contains(f) == (start.contains(f) || exists|k: int|
                    0 <= k < i && is_lockfile((#[trigger] changes@[k]).path()) && !is_modeled(
                        root@,
                        changes@[k].path(),
                        known,
                    ) && f == lockfile_finding(changes@[k].path())),
        decreases changes.len() - i,
    {
        let ghost before = findings_in(list@);
        let path = &changes[i].change.path;
        let unmodeled = has_lockfile_name(path) && !was_modeled(root, path, told);
        if unmodeled {
            let item = Diagnostic {
                code: "MONORIPPLE_LOCKFILE_CHANGE_UNMODELED",
                severity: Severity::Warning,
                message: LOCKFILE_NOTE.to_owned(),
                path: Some(path.dup()),
                members: Vec::new(),
            };
            proof {
                assert(models(item.members@) =~= Seq::empty());
                assert(item.model() == lockfile_finding(path@));
            }
            report(list, item);
        }
        proof {
            assert forall|f: Finding| #[trigger]
                findings_in(list@).contains(f) == (start.contains(f) || exists|k: int|
                    0 <= k < i + 1 && is_lockfile((#[trigger] changes@[k]).path()) && !is_modeled(
                        root@,
                        changes@[k].path(),
                        known,
                    ) && f == lockfile_finding(changes@[k].path())) by {
                assert(before.contains(f) == (start.contains(f) || exists|k: int|
                    0 <= k < i && is_lockfile((#[trigger] changes@[k]).path()) && !is_modeled(
                        root@,
                        changes@[k].path(),
                        known,
                    ) && f == lockfile_finding(changes@[k].path())));
                assert(changes@[i as int].path() == path@);
            }
        }
        i += 1;
    }
    assert(findings_in(list@) =~= start.union(lockfile_findings(root@, changes@, known)));
}

/// A changed lockfile, of a package manager or of Cargo, is reported wherever it stands, unless it
/// is the one of pnpm at the root and nothing was found about it. Nothing else is reported.
pub proof fn unmodeled_lockfiles_are_reported(
    root: Path,
    changes: Seq<ChangeTexts>,
    told: Seq<Finding>,
    i: int,
    name: Seq<char>,
)
    requires
        0 <= i < changes.len(),
        name_of(changes[i].path()) == Some(name),
    ensures
        name == "Cargo.lock"@ || manager_of(name) is Some ==> (lockfile_findings(root, changes, told).contains(
            lockfile_finding(changes[i].path()),
        ) <==> !(changes[i].path() == root.push("pnpm-lock.yaml"@) && forall|k: int|
            0 <= k < told.len() ==> (#[trigger] told[k]).1.1.1.0 != Some(changes[i].path()))),
{
    crate::package_manager::managers_are_known_by_their_lockfiles(name);
    let path = changes[i].path();
    let f = lockfile_finding(path);
    if parent_of(path) == Some(root) {
        assert(path =~= path.drop_last().push(path.last()));
    }
    if path == root.push("pnpm-lock.yaml"@) {
        assert(path.drop_last() =~= root);
        reveal_strlit("pnpm-lock.yaml");
        reveal_strlit("/");
        assert("pnpm-lock.yaml"@.len() == 14 && "/"@.len() == 1);
    }
    if name == "Cargo.lock"@ || manager_of(name) is Some {
        assert(is_lockfile(path));
        if lockfile_findings(root, changes, told).contains(f) {
            let k = choose|k: int|
                0 <= k < changes.len() && is_lockfile((#[trigger] changes[k]).path()) && !is_modeled(
                    root,
                    changes[k].path(),
                    told,
                ) && f == lockfile_finding(changes[k].path());
            assert(changes[k].path() == path);
        }
    }
}

} // verus!
