use monoripple::cargo::{affected_packages, CargoDependency, CargoPackage};
use monoripple::collections::{KeyMap, KeySet};
use monoripple::graph::DiskFacts;
use monoripple::path::FilePath;
use monoripple::workspace::Package;

fn path(text: &str) -> FilePath {
    FilePath::parse(text)
}

fn disk_with(files: &[&str]) -> DiskFacts {
    let mut disk = DiskFacts {
        canonical: KeyMap::new(),
        files: KeySet::new(),
        lookups: KeyMap::new(),
    };
    for file in files {
        disk.files.insert(path(file));
    }
    disk
}

const METADATA: &str = r#"{"packages":[
    {"name":"shared","manifest_path":"/repo/packages/shared/Cargo.toml","dependencies":[]},
    {"name":"worker","manifest_path":"/repo/apps/worker/Cargo.toml",
     "dependencies":[{"name":"shared","path":"/repo/packages/shared"},{"name":"serde"}]}
]}"#;

/// The crates that `cargo metadata` lists.
fn crates(metadata: &str) -> Vec<CargoPackage> {
    let value: serde_json::Value = serde_json::from_str(metadata).unwrap();
    let text = |value: &serde_json::Value| value.as_str().unwrap().to_string();
    value["packages"]
        .as_array()
        .unwrap()
        .iter()
        .map(|package| CargoPackage {
            name: text(&package["name"]),
            manifest_path: path(&text(&package["manifest_path"])),
            dependencies: package["dependencies"]
                .as_array()
                .unwrap()
                .iter()
                .map(|dependency| CargoDependency {
                    name: text(&dependency["name"]),
                    path: dependency.get("path").map(|found| path(&text(found))),
                })
                .collect(),
        })
        .collect()
}

fn worker_app() -> Vec<Package> {
    let mut scripts = KeyMap::new();
    scripts.insert("rust:build".to_string(), "cargo build".to_string());
    vec![Package {
        name: "worker-app".to_string(),
        dir: path("/repo/apps/worker"),
        scripts,
        entrypoint: None,
        exports: KeyMap::new(),
        dependencies: KeySet::new(),
    }]
}

fn affected(changed: &str, disk: &DiskFacts) -> KeySet<String> {
    let mut selected = KeySet::new();
    selected.insert("worker-app".to_string());
    affected_packages(
        &path("/repo"),
        &vec![path(changed)],
        &worker_app(),
        &selected,
        &crates(METADATA),
        disk,
    )
}

#[test]
fn propagates_changes_through_path_dependencies() {
    let disk = disk_with(&["/repo/Cargo.toml"]);
    let affected = affected("/repo/packages/shared/src/lib.rs", &disk);

    assert_eq!(affected.len(), 1);
    assert!(affected.contains(&"worker-app".to_string()));
}

#[test]
fn other_changes_reach_no_crate() {
    let disk = disk_with(&["/repo/Cargo.toml"]);
    assert_eq!(affected("/repo/docs/readme.md", &disk).len(), 0);
    assert_eq!(affected("/repo/packages/shared/src/lib.rs", &disk_with(&[])).len(), 0);
}
