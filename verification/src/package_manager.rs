//! Package managers and their lockfiles.
use vstd::prelude::*;

use crate::collections::KeySet;
use crate::graph::resolve::DiskFacts;
use crate::path::FilePath;
use crate::pnpm::lockfile::{revision_model, PnpmLockfile, ReadModel};
use crate::pnpm::{package_importers, revision_change, Pnpm};
use crate::text::same;
use crate::workspace::Package;

verus! {

pub type Text = Seq<char>;

/// What a change of a lockfile means for the packages of a workspace.
pub enum LockfileImpact {
    /// The resolved dependencies of these packages changed, and of no others.
    Modeled(KeySet<String>),
    /// The change cannot be attributed to packages, for this reason.
    Fallback(String),
}

impl View for LockfileImpact {
    type V = Result<Set<Text>, Text>;

    open spec fn view(&self) -> Result<Set<Text>, Text> {
        match self {
            LockfileImpact::Modeled(packages) => Ok(packages@),
            LockfileImpact::Fallback(reason) => Err(reason@),
        }
    }
}

/// A package manager that owns lockfiles at the root of a workspace.
#[derive(Clone, Copy, Debug, PartialEq, Eq, Structural)]
pub enum PackageManager {
    Pnpm,
    Npm,
    Yarn,
    Bun,
}

/// Why the lockfiles of the other package managers are not attributed.
pub const UNMODELED_FORMAT: &'static str = "exact runtime consumers are not modeled for this lockfile format";

impl PackageManager {
    /// The names of the lockfiles that the package manager owns.
    pub open spec fn owns(self, name: Text) -> bool {
        match self {
            PackageManager::Pnpm => name == "pnpm-lock.yaml"@,
            PackageManager::Npm => name == "package-lock.json"@,
            PackageManager::Yarn => name == "yarn.lock"@,
            PackageManager::Bun => name == "bun.lock"@ || name == "bun.lockb"@,
        }
    }

    pub fn lockfile_names(&self) -> (r: Vec<&'static str>)
        ensures
            forall|name: Text| #[trigger]
                self.owns(name) == (exists|i: int| 0 <= i < r@.len() && (#[trigger] r@[i])@ == name),
    {
        let mut out: Vec<&'static str> = Vec::new();
        match self {
            PackageManager::Pnpm => {
                out.push("pnpm-lock.yaml");
                assert(out@[0]@ == "pnpm-lock.yaml"@);
            },
            PackageManager::Npm => {
                out.push("package-lock.json");
                assert(out@[0]@ == "package-lock.json"@);
            },
            PackageManager::Yarn => {
                out.push("yarn.lock");
                assert(out@[0]@ == "yarn.lock"@);
            },
            PackageManager::Bun => {
                out.push("bun.lock");
                out.push("bun.lockb");
                assert(out@[0]@ == "bun.lock"@);
                assert(out@[1]@ == "bun.lockb"@);
            },
        }
        out
    }

    /// What is said of a package that a modeled change of a lockfile concerns.
    pub open spec fn detail(self) -> Text {
        match self {
            PackageManager::Pnpm => "changed pnpm dependency resolution"@,
            _ => "changed dependency resolution"@,
        }
    }

    pub fn modeled_detail(&self) -> (r: &'static str)
        ensures
            r@ == self.detail(),
    {
        match self {
            PackageManager::Pnpm => "changed pnpm dependency resolution",
            _ => "changed dependency resolution",
        }
    }

    /// What a change of a lockfile means, given what reading it gave at the two revisions: only
    /// the lockfiles of pnpm are modeled.
    pub open spec fn impact(
        self,
        old: Option<ReadModel>,
        current: Option<ReadModel>,
        owners: Map<Text, Text>,
    ) -> Result<Set<Text>, Text> {
        if self is Pnpm {
            revision_change(old, current, owners)
        } else {
            Err(UNMODELED_FORMAT@)
        }
    }

    pub fn lockfile_impact(
        &self,
        root: &FilePath,
        old: &Option<Result<PnpmLockfile, String>>,
        current: &Option<Result<PnpmLockfile, String>>,
        packages: &Vec<Package>,
        disk: &DiskFacts,
    ) -> (r: LockfileImpact)
        ensures
            r@ == self.impact(
                revision_model(*old),
                revision_model(*current),
                package_importers(*disk, root@, packages@, packages@.len() as int),
            ),
    {
        match self {
            PackageManager::Pnpm => Pnpm.lockfile_impact(root, old, current, packages, disk),
            _ => LockfileImpact::Fallback(UNMODELED_FORMAT.to_owned()),
        }
    }
}

pub open spec fn str_view(text: Option<&str>) -> Option<Text> {
    match text {
        Some(t) => Some(t@),
        None => None,
    }
}

/// The package manager that owns a lockfile of this name.
pub open spec fn manager_of(name: Text) -> Option<PackageManager> {
    if PackageManager::Pnpm.owns(name) {
        Some(PackageManager::Pnpm)
    } else if PackageManager::Npm.owns(name) {
        Some(PackageManager::Npm)
    } else if PackageManager::Yarn.owns(name) {
        Some(PackageManager::Yarn)
    } else if PackageManager::Bun.owns(name) {
        Some(PackageManager::Bun)
    } else {
        None
    }
}

pub fn package_manager_for(file_name: &str) -> (r: Option<PackageManager>)
    ensures
        r == manager_of(file_name@),
{
    if same(file_name, "pnpm-lock.yaml") {
        Some(PackageManager::Pnpm)
    } else if same(file_name, "package-lock.json") {
        Some(PackageManager::Npm)
    } else if same(file_name, "yarn.lock") {
        Some(PackageManager::Yarn)
    } else if same(file_name, "bun.lock") || same(file_name, "bun.lockb") {
        Some(PackageManager::Bun)
    } else {
        None
    }
}

/// No two package managers own a lockfile of the same name.
pub proof fn lockfile_names_are_disjoint(a: PackageManager, b: PackageManager, name: Text)
    requires
        a.owns(name),
        b.owns(name),
    ensures
        a == b,
        manager_of(name) == Some(a),
{
    reveal_strlit("pnpm-lock.yaml");
    reveal_strlit("package-lock.json");
    reveal_strlit("yarn.lock");
    reveal_strlit("bun.lock");
    reveal_strlit("bun.lockb");
    assert("pnpm-lock.yaml"@.len() == 14);
    assert("package-lock.json"@.len() == 17);
    assert("yarn.lock"@.len() == 9 && "yarn.lock"@[0] == 'y');
    assert("bun.lock"@.len() == 8);
    assert("bun.lockb"@.len() == 9 && "bun.lockb"@[0] == 'b');
}

/// The lockfiles by which package managers are known, and no others.
pub proof fn managers_are_known_by_their_lockfiles(name: Text)
    ensures
        manager_of("pnpm-lock.yaml"@) == Some(PackageManager::Pnpm),
        manager_of("package-lock.json"@) == Some(PackageManager::Npm),
        manager_of("yarn.lock"@) == Some(PackageManager::Yarn),
        manager_of("bun.lock"@) == Some(PackageManager::Bun),
        manager_of("bun.lockb"@) == Some(PackageManager::Bun),
        name != "pnpm-lock.yaml"@ && name != "package-lock.json"@ && name != "yarn.lock"@ && name
            != "bun.lock"@ && name != "bun.lockb"@ ==> manager_of(name) is None,
{
    reveal_strlit("pnpm-lock.yaml");
    reveal_strlit("package-lock.json");
    reveal_strlit("yarn.lock");
    reveal_strlit("bun.lock");
    reveal_strlit("bun.lockb");
    assert("pnpm-lock.yaml"@.len() == 14 && "package-lock.json"@.len() == 17);
    assert("yarn.lock"@[0] == 'y' && "yarn.lock"@.len() == 9);
    assert("bun.lock"@.len() == 8 && "bun.lockb"@.len() == 9 && "bun.lockb"@[0] == 'b');
}

/// Changes of the lockfiles of other package managers than pnpm are not attributed to packages.
pub proof fn only_pnpm_is_modeled(
    manager: PackageManager,
    old: Option<ReadModel>,
    current: Option<ReadModel>,
    owners: Map<Text, Text>,
)
    ensures
        manager != PackageManager::Pnpm ==> manager.impact(old, current, owners) is Err,
        manager == PackageManager::Pnpm ==> manager.impact(old, current, owners) == revision_change(
            old,
            current,
            owners,
        ),
{
}

} // verus!
