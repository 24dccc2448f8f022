use monoripple::analysis::{seed_package_input, ChangeSeeds};
use monoripple::collections::{KeyMap, KeySet};
use monoripple::data::{from_yaml, Data};
use monoripple::graph::{DependencyGraph, DiskFacts};
use monoripple::package_manager::{package_manager_for, LockfileImpact, PackageManager};
use monoripple::path::FilePath;
use monoripple::pnpm::lockfile::{PnpmImporter, PnpmLockfile, PnpmSnapshot};
use monoripple::pnpm::{pnpm_lockfile_impact, Pnpm};
use monoripple::workspace::{Package, Target};

fn path(text: &str) -> FilePath {
    FilePath::parse(text)
}

fn disk_with(files: &[&str]) -> DiskFacts {
    let mut disk = DiskFacts {
        canonical: KeyMap::new(),
        files: KeySet::new(),
        lookups: KeyMap::new(),
    };
    for file in files {
        disk.files.insert(path(file));
        disk.canonical.insert(path(file), path(file));
    }
    disk
}

fn target(package: &str, entrypoint: &str) -> Target {
    Target { package: package.to_string(), entrypoint: path(entrypoint) }
}

fn build(
    files: &[(&str, &str)],
    assets: &[&str],
    targets: &Vec<Target>,
    packages: &Vec<Package>,
) -> DependencyGraph {
    let mut present: Vec<&str> = files.iter().map(|file| file.0).collect();
    present.extend(assets);
    let sources = files.iter().map(|file| (path(file.0), file.1.to_string())).collect();
    match DependencyGraph::build(sources, targets, packages, disk_with(&present)) {
        Ok(graph) => graph,
        Err(error) => panic!("{}", error.message()),
    }
}

fn test_package(root: &str, name: &str, importer: &str) -> Package {
    Package {
        name: name.to_string(),
        dir: path(root).join_text(importer),
        scripts: KeyMap::new(),
        entrypoint: None,
        exports: KeyMap::new(),
        dependencies: KeySet::new(),
    }
}

fn impact(old: &str, current: &str, packages: &Vec<Package>) -> LockfileImpact {
    let (old, current) = (lockfile(old), lockfile(current));
    pnpm_lockfile_impact(&path("/repo"), &old, &current, packages, &disk_with(&[]))
}

/// A table under texts; an absent or empty one holds nothing.
fn table(value: Option<&serde_yaml::Value>) -> Result<KeyMap<String, Data>, String> {
    let mut out = KeyMap::new();
    match value {
        None | Some(serde_yaml::Value::Null) => {}
        Some(serde_yaml::Value::Mapping(entries)) => {
            for (key, value) in entries {
                let key = key.as_str().ok_or("a key is no text")?;
                out.insert(key.to_string(), from_yaml(value));
            }
        }
        Some(_) => return Err("invalid type: expected a map".to_string()),
    }
    Ok(out)
}

fn without(mut all: KeyMap<String, Data>, names: &[&str]) -> KeyMap<String, Data> {
    for name in names {
        all.remove(&name.to_string());
    }
    all
}

fn parts<T>(
    value: Option<&serde_yaml::Value>,
    read: impl Fn(&serde_yaml::Value) -> Result<T, String>,
) -> Result<KeyMap<String, T>, String> {
    let mut out = KeyMap::new();
    if let Some(entries) = value.and_then(|value| value.as_mapping()) {
        for (key, value) in entries {
            out.insert(key.as_str().ok_or("a key is no text")?.to_string(), read(value)?);
        }
    }
    Ok(out)
}

fn lockfile(text: &str) -> Result<PnpmLockfile, String> {
    let whole: serde_yaml::Value = serde_yaml::from_str(text).map_err(|error| error.to_string())?;
    Ok(PnpmLockfile {
        lockfile_version: from_yaml(whole.get("lockfileVersion").ok_or("missing field")?),
        importers: parts(whole.get("importers"), |value| {
            Ok(PnpmImporter {
                dependencies: table(value.get("dependencies"))?,
                dev_dependencies: table(value.get("devDependencies"))?,
                optional_dependencies: table(value.get("optionalDependencies"))?,
                other: without(
                    table(Some(value))?,
                    &["dependencies", "devDependencies", "optionalDependencies"],
                ),
            })
        })?,
        packages: table(whole.get("packages"))?,
        snapshots: parts(whole.get("snapshots"), |value| {
            Ok(PnpmSnapshot {
                dependencies: table(value.get("dependencies"))?,
                optional_dependencies: table(value.get("optionalDependencies"))?,
                metadata: without(table(Some(value))?, &["dependencies", "optionalDependencies"]),
            })
        })?,
        global: without(
            table(Some(&whole))?,
            &["lockfileVersion", "importers", "packages", "snapshots"],
        ),
    })
}

fn modeled_packages(impact: LockfileImpact) -> Vec<String> {
    match impact {
        LockfileImpact::Modeled(packages) => {
            let mut out = Vec::new();
            for i in 0..packages.len() {
                out.push(packages.at(i).clone());
            }
            out
        }
        LockfileImpact::Fallback(reason) => panic!("unexpected fallback: {reason}"),
    }
}

fn assert_fallback(impact: LockfileImpact) {
    assert!(matches!(impact, LockfileImpact::Fallback(_)));
}

#[test]
fn pnpm_dependency_removal_is_scoped_to_its_importer() {
    let packages = vec![
        test_package("/repo", "app", "apps/app"),
        test_package("/repo", "tools", "packages/tools"),
    ];
    let old = r#"
lockfileVersion: '9.0'
importers:
  apps/app: {}
  packages/tools:
    devDependencies:
      oxc-parser:
        specifier: ^1.0.0
        version: 1.0.0
packages:
  oxc-parser@1.0.0:
    resolution: {integrity: old}
snapshots:
  oxc-parser@1.0.0: {}
"#;
    let current = r#"
lockfileVersion: '9.0'
importers:
  apps/app: {}
  packages/tools: {}
packages:
  oxc-parser@1.0.0:
    resolution: {integrity: old}
snapshots:
  oxc-parser@1.0.0: {}
"#;

    let changed = modeled_packages(impact(old, current, &packages));

    assert_eq!(changed, vec!["tools".to_string()]);
}

#[test]
fn pnpm_application_resolution_change_seeds_the_application() {
    let mut app = test_package("/repo", "app", "apps/app");
    app.entrypoint = Some(path("/repo/apps/app/index.ts"));
    let packages = vec![app];
    let graph = build(
        &[("/repo/apps/app/index.ts", "export const value = true;")],
        &[],
        &vec![target("app", "/repo/apps/app/index.ts")],
        &packages,
    );
    let old = r#"
lockfileVersion: '9.0'
importers:
  apps/app:
    dependencies:
      external: {specifier: ^1.0.0, version: 1.0.0}
packages:
  external@1.0.0: {resolution: {integrity: one}}
  external@2.0.0: {resolution: {integrity: two}}
snapshots:
  external@1.0.0: {}
  external@2.0.0: {}
"#;
    let current = old.replace("version: 1.0.0", "version: 2.0.0");
    let changed = modeled_packages(impact(old, &current, &packages));
    let mut seeds = ChangeSeeds::new();
    for package_name in changed {
        assert_eq!(package_name, packages[0].name);
        seed_package_input(
            &mut seeds,
            &graph,
            &packages,
            &packages[0],
            &path("/repo/pnpm-lock.yaml"),
            vec!["changed pnpm dependency resolution".to_string()],
        );
    }

    assert!(seeds.direct_packages.contains_key(&"app".to_string()));
}

#[test]
fn pnpm_shared_library_resolution_change_reaches_runtime_consumer() {
    let mut app = test_package("/repo", "app", "apps/app");
    app.entrypoint = Some(path("/repo/apps/app/index.ts"));
    let mut shared = test_package("/repo", "@repo/shared", "packages/shared");
    shared.entrypoint = Some(path("/repo/packages/shared/index.ts"));
    let packages = vec![app, shared];
    let graph = build(
        &[
            (
                "/repo/apps/app/index.ts",
                "import { value } from '@repo/shared'; export const result = value;",
            ),
            ("/repo/packages/shared/index.ts", "export const value = true;"),
        ],
        &[],
        &vec![target("app", "/repo/apps/app/index.ts")],
        &packages,
    );
    let old = r#"
lockfileVersion: '9.0'
importers:
  apps/app:
    dependencies:
      '@repo/shared': {specifier: workspace:*, version: 'link:../../packages/shared'}
  packages/shared:
    dependencies:
      external: {specifier: ^1.0.0, version: 1.0.0}
packages:
  external@1.0.0: {resolution: {integrity: one}}
  external@2.0.0: {resolution: {integrity: two}}
snapshots:
  external@1.0.0: {}
  external@2.0.0: {}
"#;
    let current = old.replace("version: 1.0.0", "version: 2.0.0");
    let changed = modeled_packages(impact(old, &current, &packages));
    assert_eq!(changed, vec!["@repo/shared".to_string()]);
    let mut seeds = ChangeSeeds::new();
    seed_package_input(
        &mut seeds,
        &graph,
        &packages,
        &packages[1],
        &path("/repo/pnpm-lock.yaml"),
        vec!["changed pnpm dependency resolution".to_string()],
    );

    let reached = graph.affected(&seeds.nodes);
    assert!(reached.reached.contains(&DependencyGraph::target_node("app")));
    assert!(!seeds.direct_packages.contains_key(&"app".to_string()));
}

#[test]
fn pnpm_ignores_changes_outside_every_importer_resolution() {
    let packages = vec![test_package("/repo", "app", "apps/app")];
    let old = r#"
lockfileVersion: '9.0'
importers:
  apps/app:
    dependencies:
      used: {specifier: ^1.0.0, version: 1.0.0}
packages:
  used@1.0.0: {resolution: {integrity: used}}
  unused@1.0.0: {resolution: {integrity: old}}
snapshots:
  used@1.0.0: {}
  unused@1.0.0: {}
"#;
    let current = old.replace("integrity: old", "integrity: new");

    let changed = modeled_packages(impact(old, &current, &packages));

    assert!(changed.is_empty());
}

#[test]
fn malformed_and_unsupported_pnpm_lockfiles_fall_back() {
    let packages = vec![test_package("/repo", "app", "apps/app")];
    let valid = "lockfileVersion: '9.0'\nimporters:\n  apps/app: {}\n";
    assert_fallback(impact(valid, "lockfileVersion: [", &packages));
    assert_fallback(impact(
        "lockfileVersion: '8.0'\nimporters:\n  apps/app: {}\n",
        valid,
        &packages,
    ));
}

#[test]
fn pnpm_global_and_ambiguous_changes_fall_back() {
    let packages = vec![test_package("/repo", "app", "apps/app")];
    let old = "lockfileVersion: '9.0'\nimporters:\n  apps/app: {}\noverrides: {}\n";
    let current = "lockfileVersion: '9.0'\nimporters:\n  apps/app: {}\noverrides:\n  dep: 2.0.0\n";
    assert_fallback(impact(old, current, &packages));

    let ambiguous = r#"
lockfileVersion: '9.0'
importers:
  apps/app:
    dependencies:
      dep: {specifier: ^1.0.0, version: 1.0.0}
packages:
  1.0.0: {}
  dep@1.0.0: {}
snapshots: {}
"#;
    assert_fallback(impact(ambiguous, ambiguous, &packages));
}

#[test]
fn an_unchanged_lockfile_concerns_no_package() {
    let packages = vec![test_package("/repo", "app", "apps/app")];
    let lock = "lockfileVersion: '9.0'\nimporters:\n  apps/app: {}\n";

    assert!(modeled_packages(impact(lock, lock, &packages)).is_empty());
}

#[test]
fn a_lockfile_that_comes_or_goes_falls_back() {
    let disk = disk_with(&[]);
    let lock = Some(lockfile("lockfileVersion: '9.0'"));
    assert_fallback(Pnpm.lockfile_impact(&path("/repo"), &None, &lock, &vec![], &disk));
    assert_fallback(Pnpm.lockfile_impact(&path("/repo"), &lock, &None, &vec![], &disk));
}

#[test]
fn an_empty_importer_is_modeled() {
    let packages = vec![test_package("/repo", "app", "apps/app")];
    let old = "lockfileVersion: '9.0'\nimporters:\n  apps/app:\n";
    let current = "lockfileVersion: '9.0'\nimporters:\n  apps/app:\n    dependencies:\n";

    assert!(modeled_packages(impact(old, current, &packages)).is_empty());
}

#[test]
fn a_lockfile_that_cannot_be_read_says_why() {
    let disk = disk_with(&[]);
    let good = lockfile("lockfileVersion: '9.0'");
    let bad: Result<PnpmLockfile, String> = Err("missing field `lockfileVersion`".to_string());
    match pnpm_lockfile_impact(&path("/repo"), &bad, &good, &vec![], &disk) {
        LockfileImpact::Fallback(reason) => assert_eq!(
            reason,
            "the base pnpm lockfile could not be parsed: missing field `lockfileVersion`"
        ),
        LockfileImpact::Modeled(_) => panic!("expected a fallback"),
    }
    match pnpm_lockfile_impact(&path("/repo"), &good, &bad, &vec![], &disk) {
        LockfileImpact::Fallback(reason) => assert_eq!(
            reason,
            "the current pnpm lockfile could not be parsed: missing field `lockfileVersion`"
        ),
        LockfileImpact::Modeled(_) => panic!("expected a fallback"),
    }
}

#[test]
fn lockfiles_belong_to_their_package_managers() {
    assert_eq!(package_manager_for("pnpm-lock.yaml"), Some(PackageManager::Pnpm));
    assert_eq!(package_manager_for("Cargo.lock"), None);
    assert_eq!(PackageManager::Bun.lockfile_names(), vec!["bun.lock", "bun.lockb"]);
    let yarn = package_manager_for("yarn.lock").unwrap();
    match yarn.lockfile_impact(&path("/repo"), &None, &None, &vec![], &disk_with(&[])) {
        LockfileImpact::Fallback(reason) => assert_eq!(
            reason,
            "exact runtime consumers are not modeled for this lockfile format"
        ),
        LockfileImpact::Modeled(_) => panic!("expected a fallback"),
    }
}

#[test]
fn a_change_deep_in_a_resolution_concerns_its_importer() {
    let packages =
        vec![test_package("/repo", "app", "apps/app"), test_package("/repo", "web", "apps/web")];
    let old = r#"
lockfileVersion: '9.0'
importers:
  apps/app:
    dependencies:
      one: {specifier: ^1.0.0, version: 1.0.0}
  apps/web:
    dependencies:
      three: {specifier: ^1.0.0, version: 1.0.0}
packages:
  one@1.0.0: {resolution: {integrity: one}}
  two@1.0.0: {resolution: {integrity: two}}
  three@1.0.0: {resolution: {integrity: three}}
snapshots:
  one@1.0.0:
    dependencies:
      two: 1.0.0
  two@1.0.0: {}
  three@1.0.0: {}
"#;
    let current = old.replace("integrity: two", "integrity: changed");

    assert_eq!(modeled_packages(impact(old, &current, &packages)), vec!["app".to_string()]);
}

fn reason(impact: LockfileImpact) -> String {
    match impact {
        LockfileImpact::Fallback(reason) => reason,
        LockfileImpact::Modeled(_) => panic!("expected a fallback"),
    }
}

#[test]
fn fallbacks_say_why() {
    let packages = vec![test_package("/repo", "app", "apps/app")];
    let lock = |version: &str, importer: &str, reference: &str| {
        format!(
            "lockfileVersion: '{version}'\nimporters:\n  {importer}:\n    dependencies:\n      one: {{specifier: ^1.0.0, version: {reference}}}\npackages:\n  one@1.0.0: {{}}\n  one@2.0.0: {{}}\nsnapshots:\n  one@1.0.0: {{}}\n  one@2.0.0: {{}}\n"
        )
    };
    let valid = lock("9.0", "apps/app", "1.0.0");
    assert_eq!(
        reason(impact(&lock("8.0", "apps/app", "1.0.0"), &valid, &packages)),
        "only pnpm lockfile version 9 is modeled"
    );
    assert_eq!(
        reason(impact(&lock("9.0", ".", "1.0.0"), &lock("9.0", ".", "2.0.0"), &packages)),
        "the root pnpm importer dependency resolution changed"
    );
    assert_eq!(
        reason(impact(&lock("9.0", "gone", "1.0.0"), &lock("9.0", "gone", "2.0.0"), &packages)),
        "changed importer `gone` does not map to a current workspace package"
    );
    assert_eq!(
        reason(impact("lockfileVersion: '9.0'\n", "lockfileVersion: '9.0'\n", &packages)),
        "the pnpm lockfile does not contain v9 importer data"
    );
    assert!(reason(impact("lockfileVersion: [", &valid, &packages))
        .starts_with("the base pnpm lockfile could not be parsed: "));
    assert!(reason(impact(&valid, "lockfileVersion: [", &packages))
        .starts_with("the current pnpm lockfile could not be parsed: "));
}
