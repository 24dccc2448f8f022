//! The packages of a workspace and what is deployed, built or tested from them.
pub mod laws;
pub mod manifest;
pub mod owner;
pub mod roots;
pub mod tasks;
pub mod testing;
pub mod workers;

pub use manifest::{discover_packages, Manifest, ManifestFile};
pub use owner::{discover_source_files, package_for_path};
pub use roots::{generated_roots_for, task_roots_for};
pub use tasks::{targets_for, targets_for_packages, task_packages_for};
pub use testing::test_roots_for;

use vstd::prelude::*;

use crate::collections::{KeyMap, KeySet};
use crate::path::FilePath;

verus! {

/// A package of the workspace as its manifest describes it.
pub struct Package {
    pub name: String,
    pub dir: FilePath,
    pub scripts: KeyMap<String, String>,
    pub entrypoint: Option<FilePath>,
    pub exports: KeyMap<String, FilePath>,
    pub dependencies: KeySet<String>,
}

/// A package that is deployed or run, with the file it starts from.
pub struct Target {
    pub package: String,
    pub entrypoint: FilePath,
}

} // verus!
