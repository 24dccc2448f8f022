use monoripple::collections::{KeyMap, KeySet};
use monoripple::data::{from_json, Data};
use monoripple::graph::{DependencyGraph, DiskFacts, Node};
use monoripple::path::FilePath;
use monoripple::workspace::manifest::wrangler_config;
use monoripple::workspace::owner::enters_for_sources;
use monoripple::workspace::tasks::{turbo_task_names, TurboConfig, TurboTask};
use monoripple::workspace::{
    discover_packages, discover_source_files, generated_roots_for, package_for_path, targets_for,
    targets_for_packages, task_packages_for, task_roots_for, test_roots_for, Manifest, ManifestFile,
    Package,
};

/// A workspace in memory: the paths below `/repo` and the texts of the files.
struct Workspace {
    files: Vec<(&'static str, &'static str)>,
}

fn path(text: &str) -> FilePath {
    FilePath::parse(text)
}

impl Workspace {
    fn text(&self, file: &FilePath) -> Option<String> {
        let shown = file.display();
        self.files
            .iter()
            .find(|entry| format!("/repo/{}", entry.0) == shown)
            .map(|entry| entry.1.to_string())
    }

    fn disk(&self) -> DiskFacts {
        let mut disk = DiskFacts {
            canonical: KeyMap::new(),
            files: KeySet::new(),
            lookups: KeyMap::new(),
        };
        for (file, _) in &self.files {
            disk.files.insert(path("/repo").join_text(file));
        }
        disk
    }

    fn packages(&self) -> Vec<Package> {
        let mut manifests = Vec::new();
        for (file, text) in &self.files {
            let full = path("/repo").join_text(file);
            if full.file_name() == Some("package.json".to_string()) {
                let dir = full.parent().unwrap();
                let jsonc = self.text(&dir.join_text("wrangler.jsonc"));
                let json = self.text(&dir.join_text("wrangler.json"));
                manifests.push(ManifestFile { dir, manifest: manifest(text), jsonc, json });
            }
        }
        match discover_packages(manifests, &self.disk()) {
            Ok(packages) => packages,
            Err((dir, reason)) => panic!("failed to parse {}: {}", dir.display(), reason),
        }
    }

    fn configs(&self, packages: &Vec<Package>) -> Vec<Option<Data>> {
        let mut out = Vec::new();
        for package in packages {
            let jsonc = self.text(&package.dir.join_text("wrangler.jsonc"));
            let json = self.text(&package.dir.join_text("wrangler.json"));
            out.push(wrangler_config(jsonc.as_deref(), json.as_deref()));
        }
        out
    }

    fn sources(&self, packages: &Vec<Package>, include_tests: bool) -> Vec<FilePath> {
        let found = self
            .files
            .iter()
            .filter(|entry| entry.0.split('/').all(|name| enters_for_sources(name, include_tests)))
            .map(|entry| path("/repo").join_text(entry.0))
            .collect();
        discover_source_files(found, packages, include_tests)
    }

    fn graph(&self, files: &Vec<FilePath>, packages: &Vec<Package>, task: &str) -> DependencyGraph {
        let sources = files
            .iter()
            .map(|file| (path(&file.display()), self.text(file).unwrap()))
            .collect();
        match DependencyGraph::build(sources, &targets_for(packages, task), packages, self.disk()) {
            Ok(graph) => graph,
            Err(error) => panic!("{}", error.message()),
        }
    }
}

fn table(value: &serde_json::Value, name: &str) -> KeyMap<String, String> {
    let mut out = KeyMap::new();
    if let Some(entries) = value.get(name) {
        for (key, entry) in entries.as_object().unwrap() {
            out.insert(key.clone(), entry.as_str().unwrap().to_string());
        }
    }
    out
}

/// What a `package.json` says.
fn manifest(text: &str) -> Result<Manifest, String> {
    let value: serde_json::Value = serde_json::from_str(text).map_err(|error| error.to_string())?;
    let field = |name: &str| value.get(name).map(|found| found.as_str().unwrap().to_string());
    Ok(Manifest {
        name: field("name"),
        scripts: table(&value, "scripts"),
        main: field("main"),
        module: field("module"),
        source: field("source"),
        exports: value.get("exports").map(from_json),
        dependencies: table(&value, "dependencies"),
        dev_dependencies: table(&value, "devDependencies"),
        peer_dependencies: table(&value, "peerDependencies"),
        optional_dependencies: table(&value, "optionalDependencies"),
    })
}

/// What a `turbo.json` says.
fn turbo(text: &str) -> TurboConfig {
    let value: serde_json::Value = serde_json::from_str(text).unwrap();
    let mut tasks = KeyMap::new();
    for (name, task) in value["tasks"].as_object().unwrap() {
        let depends_on = match task.get("dependsOn") {
            Some(list) => list
                .as_array()
                .unwrap()
                .iter()
                .map(|item| item.as_str().unwrap().to_string())
                .collect(),
            None => Vec::new(),
        };
        tasks.insert(name.clone(), TurboTask { depends_on });
    }
    TurboConfig { tasks }
}

fn ends_with(file: &FilePath, end: &str) -> bool {
    file.display().ends_with(&format!("/{end}"))
}

fn has_root(roots: &KeyMap<String, Vec<FilePath>>, package: &str, end: &str) -> bool {
    roots.get(&package.to_string()).unwrap().iter().any(|file| ends_with(file, end))
}

fn names(set: &KeySet<String>) -> Vec<String> {
    let mut out = Vec::new();
    for i in 0..set.len() {
        out.push(set.at(i).clone());
    }
    out
}

fn reaches(graph: &DependencyGraph, file: &str, symbol: &str, package: &str) -> bool {
    let mut changed = KeySet::new();
    changed.insert(Node::new(path(file), symbol.to_string()));
    graph.affected(&changed).reached.contains(&DependencyGraph::target_node(package))
}

#[test]
fn discovers_wrangler_target() {
    let workspace = Workspace {
        files: vec![
            (
                "apps/worker/package.json",
                r#"{"name":"worker","scripts":{"deploy":"wrangler deploy"}}"#,
            ),
            ("apps/worker/wrangler.jsonc", "{ // worker config\n main: 'src/index.ts', }"),
            ("apps/worker/src/index.ts", "export default {};"),
        ],
    };

    let packages = workspace.packages();
    let targets = targets_for(&packages, "deploy");
    assert_eq!(targets[0].package, "worker");
    assert!(ends_with(&targets[0].entrypoint, "apps/worker/src/index.ts"));
}

#[test]
fn discovers_vite_and_cargo_generated_targets() {
    let workspace = Workspace {
        files: vec![
            ("apps/web/package.json", r#"{"name":"web","scripts":{"deploy":"wrangler deploy"}}"#),
            ("apps/web/wrangler.jsonc", "{ main: '@framework/server-entry' }"),
            ("apps/web/vite.config.ts", "export default {};\n"),
            ("apps/web/src/router.ts", "export const router = {};\n"),
            (
                "apps/rust-worker/package.json",
                r#"{"name":"rust-worker","scripts":{"deploy":"wrangler deploy"}}"#,
            ),
            ("apps/rust-worker/wrangler.jsonc", "{ main: 'build/index.js' }"),
            ("apps/rust-worker/Cargo.toml", "[workspace]\n"),
        ],
    };

    let packages = workspace.packages();
    let files = workspace.sources(&packages, false);
    let targets = targets_for(&packages, "deploy");
    let (roots, external) = generated_roots_for(&packages, &targets, &files, &workspace.disk());

    assert!(has_root(&roots, "web", "apps/web/src/router.ts"));
    assert!(external.contains(&"rust-worker".to_string()));

    let mut graph = workspace.graph(&files, &packages, "deploy");
    for i in 0..roots.len() {
        graph.add_target_roots(roots.key_at(i), roots.value_at(i));
    }
    for i in 0..external.len() {
        graph.add_external_target(external.at(i));
    }
    assert!(graph
        .diagnostics
        .iter()
        .all(|found| found.code != "MONORIPPLE_VIRTUAL_OR_GENERATED_ENTRYPOINT"));
}

#[test]
fn discovers_turbo_dependencies_and_script_roots() {
    let workspace = Workspace {
        files: vec![
            ("turbo.json", r#"{"tasks":{"check":{"dependsOn":["check:type"]}}}"#),
            ("apps/worker/package.json", r#"{"name":"worker","scripts":{"check:type":"tsc"}}"#),
            ("apps/worker/src/extra.ts", "export const extra = 1;"),
            (
                "packages/generator/package.json",
                r#"{"name":"generator","scripts":{"generate":"bun run src/generate.ts"}}"#,
            ),
            ("packages/generator/src/generate.ts", "export const generate = 1;"),
        ],
    };
    let config = workspace.text(&path("/repo/turbo.json")).map(|text| turbo(&text));
    let disk = workspace.disk();

    let packages = workspace.packages();
    let files = workspace.sources(&packages, false);
    let (selected, task_names) =
        task_packages_for(&path("/repo"), &packages, "check", &config);
    assert_eq!(names(&selected), vec!["worker".to_string()]);
    assert_eq!(names(&task_names), vec!["check".to_string(), "check:type".to_string()]);
    let roots = task_roots_for(&packages, &selected, &task_names, &files, true, &disk);
    assert!(has_root(&roots, "worker", "apps/worker/src/extra.ts"));

    let (selected, task_names) =
        task_packages_for(&path("/repo"), &packages, "generate", &config);
    let roots = task_roots_for(&packages, &selected, &task_names, &files, false, &disk);
    assert!(has_root(&roots, "generator", "packages/generator/src/generate.ts"));
}

#[test]
fn discovers_test_files_and_worker_dependencies() {
    let workspace = Workspace {
        files: vec![
            ("apps/engine/package.json", r#"{"name":"engine","module":"src/index.ts"}"#),
            (
                "apps/engine/wrangler.jsonc",
                "{ main: 'src/index.ts', env: { production: { name: 'engine-production' } } }",
            ),
            ("apps/engine/src/index.ts", "export const run = 1;"),
            (
                "apps/config-service/package.json",
                r#"{"name":"config-service","module":"src/index.ts","scripts":{"test":"vitest run"}}"#,
            ),
            (
                "apps/config-service/wrangler.jsonc",
                "{ main: 'src/index.ts', durable_objects: { bindings: [{ script_name: 'engine-production' }] } }",
            ),
            ("apps/config-service/src/index.ts", "export const api = 1;"),
            (
                "apps/config-service/tests/index.test.ts",
                "import { api } from '../src'; test('api', () => api);",
            ),
            ("apps/config-service/vitest.config.ts", "export default { test: {} };"),
            ("packages/tools/package.json", r#"{"name":"tools","scripts":{"test":"vitest run"}}"#),
            ("packages/tools/src/tool.test.ts", "export const verifies = true;"),
        ],
    };

    let packages = workspace.packages();
    let production_files = workspace.sources(&packages, false);
    assert!(!production_files.iter().any(|file| ends_with(file, "tests/index.test.ts")));

    let files = workspace.sources(&packages, true);
    let test_roots = test_roots_for(&packages, "test", &files, &workspace.configs(&packages));
    assert!(has_root(&test_roots, "config-service", "tests/index.test.ts"));
    assert!(has_root(&test_roots, "config-service", "vitest.config.ts"));
    assert!(has_root(&test_roots, "config-service", "apps/engine/src/index.ts"));
    assert!(has_root(&test_roots, "tools", "packages/tools/src/tool.test.ts"));

    let mut graph = workspace.graph(&files, &packages, "test");
    for i in 0..test_roots.len() {
        graph.add_target_roots(test_roots.key_at(i), test_roots.value_at(i));
    }
    assert!(reaches(&graph, "/repo/apps/engine/src/index.ts", "run", "config-service"));
    assert!(reaches(&graph, "/repo/packages/tools/src/tool.test.ts", "verifies", "tools"));
}

#[test]
fn an_unreadable_manifest_is_named() {
    let manifests = vec![ManifestFile {
        dir: path("/repo/app"),
        manifest: Err("missing field".to_string()),
        jsonc: None,
        json: None,
    }];
    let workspace = Workspace { files: vec![] };

    match discover_packages(manifests, &workspace.disk()) {
        Ok(_) => panic!("expected an error"),
        Err((dir, reason)) => {
            assert_eq!(dir.display(), "/repo/app");
            assert_eq!(reason, "missing field");
        }
    }
}

#[test]
fn dependencies_of_all_kinds_count() {
    let workspace = Workspace {
        files: vec![(
            "a/package.json",
            r#"{"dependencies":{"b":"1"},"devDependencies":{"c":"1"},
                "peerDependencies":{"d":"1"},"optionalDependencies":{"b":"2"}}"#,
        )],
    };
    let packages = workspace.packages();

    assert_eq!(packages[0].name, "a");
    assert_eq!(names(&packages[0].dependencies), vec!["b", "c", "d"]);
}

#[test]
fn tasks_run_what_they_depend_on() {
    let config = Some(turbo(
        r#"{"tasks":{"a":{"dependsOn":["^b","$ENV","pkg#x"]},"b":{"dependsOn":["c"]},"d":{}}}"#,
    ));
    assert_eq!(names(&turbo_task_names(&config, "a")), vec!["a", "b", "c"]);
    assert_eq!(names(&turbo_task_names(&config, "d")), vec!["d"]);
    assert_eq!(names(&turbo_task_names(&None, "a")), vec!["a"]);
}

#[test]
fn files_belong_to_the_deepest_package() {
    let workspace = Workspace {
        files: vec![
            ("package.json", r#"{"name":"root"}"#),
            ("apps/app/package.json", r#"{"name":"app"}"#),
        ],
    };
    let packages = workspace.packages();

    let owner = |file: &str| package_for_path(&packages, &path(file)).map(|p| p.name.clone());
    assert_eq!(owner("/repo/apps/app/src/index.ts"), Some("app".to_string()));
    assert_eq!(owner("/repo/index.ts"), Some("root".to_string()));
    assert_eq!(owner("/elsewhere/index.ts"), None);
}

#[test]
fn selected_packages_are_targets_by_their_entrypoints() {
    let workspace = Workspace {
        files: vec![
            ("a/package.json", r#"{"name":"a","module":"index.ts"}"#),
            ("a/index.ts", "export const a = 1;"),
            ("b/package.json", r#"{"name":"b","module":"index.ts"}"#),
            ("b/index.ts", "export const b = 1;"),
        ],
    };
    let packages = workspace.packages();
    let mut selected = KeySet::new();
    selected.insert("b".to_string());

    let targets = targets_for_packages(&packages, &selected);
    assert_eq!(targets.len(), 1);
    assert_eq!(targets[0].package, "b");
    assert_eq!(targets[0].entrypoint.display(), "/repo/b/index.ts");
}
