use monoripple::analysis::{
    add_changed_symbols, find_change_seeds, needs_texts, seed_package_input, ChangeSeeds,
    ChangeTexts,
};
use monoripple::collections::{KeyMap, KeySet};
use monoripple::git::{ChangeKind, ChangedFile};
use monoripple::graph::{DependencyGraph, DiskFacts, Node};
use monoripple::parser::{parse_module, ParsedModule, MODULE_INIT};
use monoripple::path::FilePath;
use monoripple::workspace::{Package, Target};

fn path(text: &str) -> FilePath {
    FilePath::parse(text)
}

fn disk_with(files: &[&str]) -> DiskFacts {
    let mut disk = DiskFacts {
        canonical: KeyMap::new(),
        files: KeySet::new(),
        lookups: KeyMap::new(),
    };
    for file in files {
        disk.files.insert(path(file));
        disk.canonical.insert(path(file), path(file));
    }
    disk
}

fn target(package: &str, entrypoint: &str) -> Target {
    Target { package: package.to_string(), entrypoint: path(entrypoint) }
}

fn build(
    files: &[(&str, &str)],
    assets: &[&str],
    targets: &Vec<Target>,
    packages: &Vec<Package>,
) -> DependencyGraph {
    let mut present: Vec<&str> = files.iter().map(|file| file.0).collect();
    present.extend(assets);
    let sources = files.iter().map(|file| (path(file.0), file.1.to_string())).collect();
    match DependencyGraph::build(sources, targets, packages, disk_with(&present)) {
        Ok(graph) => graph,
        Err(error) => panic!("{}", error.message()),
    }
}

fn node(file: &str, symbol: &str) -> Node {
    Node::new(path(file), symbol.to_string())
}

fn parse(file: &str, source: &str) -> ParsedModule {
    match parse_module(&path(file), source) {
        Ok(module) => module,
        Err(error) => panic!("{}", error.message()),
    }
}

fn test_package(root: &str, name: &str, importer: &str) -> Package {
    Package {
        name: name.to_string(),
        dir: path(root).join_text(importer),
        scripts: KeyMap::new(),
        entrypoint: None,
        exports: KeyMap::new(),
        dependencies: KeySet::new(),
    }
}

fn change(file: &str, kind: ChangeKind, before: Option<&str>, after: Option<&str>) -> ChangeTexts {
    ChangeTexts {
        change: ChangedFile { path: path(file), kind },
        before: before.map(|text| text.to_string()),
        after: after.map(|text| text.to_string()),
        old_lockfile: None,
        new_lockfile: None,
    }
}

fn seeds_of(
    changes: Vec<ChangeTexts>,
    packages: &Vec<Package>,
    graph: &DependencyGraph,
) -> ChangeSeeds {
    match find_change_seeds(&path("/repo"), &changes, packages, graph, None) {
        Ok(seeds) => seeds,
        Err(error) => panic!("{}", error.message()),
    }
}

fn is_direct(seeds: &ChangeSeeds, package: &str) -> bool {
    seeds.direct_packages.contains_key(&package.to_string())
}

#[test]
fn seeds_only_changed_declaration() {
    let old = parse("shared.ts", "export const used = 1; export const untouched = 2;");
    let current = parse("shared.ts", "export const used = 3; export const untouched = 2;");
    let mut seeds = KeySet::new();
    let mut type_seeds = KeySet::new();
    add_changed_symbols(
        &mut seeds,
        &mut type_seeds,
        &path("shared.ts"),
        &path("shared.ts"),
        &old,
        &current,
    );

    assert!(seeds.contains(&node("shared.ts", "used")));
    assert!(!seeds.contains(&node("shared.ts", "untouched")));
}

fn registry_impact(
    old_registry: &str,
    current_registry: &str,
    consumers: &[(&str, &str)],
) -> Vec<String> {
    let mut files = vec![("/repo/registry.ts".to_string(), current_registry)];
    let mut targets = Vec::new();
    for (name, source) in consumers {
        let file = format!("/repo/{name}.ts");
        targets.push(target(name, &file));
        files.push((file, source));
    }
    let given: Vec<(&str, &str)> = files.iter().map(|file| (file.0.as_str(), file.1)).collect();
    let graph = build(&given, &[], &targets, &vec![]);
    let old = parse("/repo/registry.ts", old_registry);
    let current = parse("/repo/registry.ts", current_registry);
    let mut seeds = KeySet::new();
    let mut type_seeds = KeySet::new();
    add_changed_symbols(
        &mut seeds,
        &mut type_seeds,
        &path("/repo/registry.ts"),
        &path("/repo/registry.ts"),
        &old,
        &current,
    );
    let reached = graph.affected(&seeds).reached;

    let mut affected: Vec<String> = targets
        .iter()
        .filter(|target| reached.contains(&DependencyGraph::target_node(&target.package)))
        .map(|target| target.package.clone())
        .collect();
    affected.sort();
    affected
}

#[test]
fn additive_registry_entry_only_reaches_its_literal_consumer() {
    let affected = registry_impact(
        "export const registry = { alpha: 1, beta: 2 };",
        "export const registry = { alpha: 1, beta: 2, added: 3 };",
        &[
            (
                "alpha",
                "import { registry } from './registry'; const result = registry.alpha; export default result;",
            ),
            (
                "beta",
                "import { registry } from './registry'; const result = registry['beta']; export default result;",
            ),
            (
                "added",
                "import { registry } from './registry'; const result = registry.added; export default result;",
            ),
        ],
    );

    assert_eq!(affected, vec!["added".to_string()]);
}

#[test]
fn dynamic_registry_access_remains_broad() {
    let affected = registry_impact(
        "export const registry = { alpha: 1, beta: 2 };",
        "export const registry = { alpha: 1, beta: 2, added: 3 };",
        &[(
            "dynamic",
            "import { registry } from './registry'; const key = process.env.KEY!; const result = registry[key]; export default result;",
        )],
    );

    assert_eq!(affected, vec!["dynamic".to_string()]);
}

#[test]
fn registry_enumeration_remains_broad() {
    let affected = registry_impact(
        "export const registry = { alpha: 1, beta: 2 };",
        "export const registry = { alpha: 1, beta: 2, added: 3 };",
        &[(
            "enumerates",
            "import { registry } from './registry'; const result = Object.keys(registry); export default result;",
        )],
    );

    assert_eq!(affected, vec!["enumerates".to_string()]);
}

#[test]
fn registry_reordering_affects_enumeration_but_not_literal_access() {
    let affected = registry_impact(
        "export const registry = { alpha: 1, beta: 2 };",
        "export const registry = { beta: 2, alpha: 1 };",
        &[
            (
                "alpha",
                "import { registry } from './registry'; const result = registry.alpha; export default result;",
            ),
            (
                "enumerates",
                "import { registry } from './registry'; const result = Object.keys(registry); export default result;",
            ),
        ],
    );

    assert_eq!(affected, vec!["enumerates".to_string()]);
}

#[test]
fn registry_mutation_and_escape_remain_broad() {
    let affected = registry_impact(
        "export const registry = { alpha: 1, beta: 2 };",
        "export const registry = { alpha: 1, beta: 2, added: 3 };",
        &[
            (
                "mutates",
                "import { registry } from './registry'; registry.alpha = 4; export default registry.alpha;",
            ),
            (
                "escapes",
                "import { registry } from './registry'; const escaped = registry; export default escaped;",
            ),
        ],
    );

    assert_eq!(affected, vec!["escapes".to_string(), "mutates".to_string()]);
}

#[test]
fn non_literal_forwarding_remains_broad() {
    let affected = registry_impact(
        "export const registry = { alpha: 1, beta: 2 };",
        "export const registry = { alpha: 1, beta: 2, added: 3 };",
        &[(
            "wrapper",
            "import { registry } from './registry'; function read(key: string) { return registry[key]; } const result = read('added'); export default result;",
        )],
    );

    assert_eq!(affected, vec!["wrapper".to_string()]);
}

#[test]
fn effectful_or_computed_registry_entries_fall_back_to_the_whole_registry() {
    let effectful = registry_impact(
        "declare function create(): number; export const registry = { alpha: 1, beta: 2 };",
        "declare function create(): number; export const registry = { alpha: 1, beta: 2, added: create() };",
        &[(
            "alpha",
            "import { registry } from './registry'; const result = registry.alpha; export default result;",
        )],
    );
    let computed = registry_impact(
        "const added = 'added'; export const registry = { alpha: 1, beta: 2 };",
        "const added = 'added'; export const registry = { alpha: 1, beta: 2, [added]: 3 };",
        &[(
            "alpha",
            "import { registry } from './registry'; const result = registry.alpha; export default result;",
        )],
    );
    let duplicate = registry_impact(
        "export const registry = { alpha: 1, beta: 2 };",
        "export const registry = { alpha: 1, beta: 2, alpha: 3 };",
        &[(
            "beta",
            "import { registry } from './registry'; const result = registry.beta; export default result;",
        )],
    );
    let function_valued = registry_impact(
        "export const registry = { alpha: () => 1 };",
        "export const registry = { alpha: () => 1, added: () => registry.alpha() };",
        &[(
            "alpha",
            "import { registry } from './registry'; const result = registry.alpha(); export default result;",
        )],
    );

    assert_eq!(effectful, vec!["alpha".to_string()]);
    assert_eq!(computed, vec!["alpha".to_string()]);
    assert_eq!(duplicate, vec!["beta".to_string()]);
    assert_eq!(function_valued, vec!["alpha".to_string()]);
}

#[test]
fn seeds_imported_non_source_inputs() {
    let graph = build(
        &[("/repo/app.ts", "import './style.css'; export const value = true;")],
        &["/repo/style.css"],
        &vec![target("app", "/repo/app.ts")],
        &vec![],
    );
    let changes = vec![change(
        "/repo/style.css",
        ChangeKind::Modified,
        None,
        Some("body { color: red; }"),
    )];

    let seeds = seeds_of(changes, &vec![], &graph);

    assert!(seeds.nodes.contains(&node("/repo/style.css", MODULE_INIT)));
}

#[test]
fn package_manifest_changes_seed_library_symbols() {
    let mut package = test_package("/repo", "shared", "shared");
    package.entrypoint = Some(path("/repo/shared/index.ts"));
    let packages = vec![package];
    let graph = build(
        &[("/repo/shared/index.ts", "export const value = true;")],
        &["/repo/shared/package.json"],
        &vec![],
        &packages,
    );
    let changes = vec![change(
        "/repo/shared/package.json",
        ChangeKind::Added,
        None,
        Some(r#"{"name":"shared"}"#),
    )];

    let seeds = seeds_of(changes, &packages, &graph);

    assert!(seeds.nodes.contains(&node("/repo/shared/index.ts", "value")));
}

#[test]
fn deleted_unowned_manifest_affects_every_target() {
    let graph = build(
        &[("/repo/app.ts", "export const value = true;")],
        &[],
        &vec![target("app", "/repo/app.ts")],
        &vec![],
    );
    let changes = vec![change("/repo/removed/package.json", ChangeKind::Deleted, None, None)];

    let seeds = seeds_of(changes, &vec![], &graph);

    assert!(is_direct(&seeds, "app"));
}

#[test]
fn package_input_seeding_excludes_nested_workspaces() {
    let root_package = test_package("/repo", "root", "");
    let mut app = test_package("/repo", "app", "apps/app");
    app.entrypoint = Some(path("/repo/apps/app/index.ts"));
    let packages = vec![root_package, app];
    let graph = build(
        &[("/repo/apps/app/index.ts", "export const value = true;")],
        &[],
        &vec![target("app", "/repo/apps/app/index.ts")],
        &packages,
    );
    let mut seeds = ChangeSeeds::new();

    seed_package_input(
        &mut seeds,
        &graph,
        &packages,
        &packages[0],
        &path("/repo/package.json"),
        vec!["changed package manifest".to_string()],
    );

    assert_eq!(seeds.nodes.len(), 0);
    assert_eq!(seeds.type_nodes.len(), 0);
    assert!(!graph
        .affected(&seeds.nodes)
        .reached
        .contains(&DependencyGraph::target_node("app")));
}

#[test]
fn added_pnpm_lockfile_falls_back_to_every_target_with_diagnostic() {
    let graph = build(
        &[("/repo/app.ts", "export const value = true;")],
        &["/repo/pnpm-lock.yaml"],
        &vec![target("app", "/repo/app.ts")],
        &vec![],
    );
    let changes = vec![change(
        "/repo/pnpm-lock.yaml",
        ChangeKind::Added,
        None,
        Some("lockfileVersion: '9.0'"),
    )];

    let seeds = seeds_of(changes, &vec![], &graph);

    assert!(is_direct(&seeds, "app"));
    assert_eq!(seeds.diagnostics[0].code, "MONORIPPLE_LOCKFILE_CHANGE_UNMODELED");
}

#[test]
fn an_unchanged_module_is_no_seed() {
    let module = parse("/repo/a.ts", "export const a = 1; export type B = string;");
    let again = parse("/repo/a.ts", "export const a = 1; export type B = string;");
    let mut seeds = KeySet::new();
    let mut type_seeds = KeySet::new();
    add_changed_symbols(
        &mut seeds,
        &mut type_seeds,
        &path("/repo/a.ts"),
        &path("/repo/a.ts"),
        &module,
        &again,
    );

    assert_eq!(seeds.len(), 0);
    assert_eq!(type_seeds.len(), 0);
}

#[test]
fn a_modified_module_seeds_its_changed_symbols() {
    let graph = build(
        &[("/repo/app.ts", "export const a = 2; export const b = 1;")],
        &[],
        &vec![target("app", "/repo/app.ts")],
        &vec![],
    );
    let changes = vec![change(
        "/repo/app.ts",
        ChangeKind::Modified,
        Some("export const a = 1; export const b = 1;"),
        Some("export const a = 2; export const b = 1;"),
    )];

    let seeds = seeds_of(changes, &vec![], &graph);

    assert_eq!(seeds.nodes.len(), 1);
    assert!(seeds.nodes.contains(&node("/repo/app.ts", "a")));
    assert_eq!(seeds.direct_packages.len(), 0);
}

#[test]
fn a_base_module_that_cannot_be_parsed_is_an_error() {
    let graph = build(&[("/repo/app.ts", "export const a = 2;")], &[], &vec![], &vec![]);
    let changes = vec![change(
        "/repo/app.ts",
        ChangeKind::Modified,
        Some("export const = ;"),
        Some("export const a = 2;"),
    )];

    assert!(find_change_seeds(&path("/repo"), &changes, &vec![], &graph, None).is_err());
}

#[test]
fn a_manifest_change_is_described_field_by_field() {
    let packages = vec![test_package("/repo", "app", "app")];
    let graph = build(
        &[("/repo/app/index.ts", "export const value = true;")],
        &["/repo/app/package.json"],
        &vec![target("app", "/repo/app/index.ts")],
        &packages,
    );
    let changes = vec![change(
        "/repo/app/package.json",
        ChangeKind::Modified,
        Some(r#"{"name":"app","scripts":{"build":"a"}}"#),
        Some(r#"{"name":"app","scripts":{"build":"b"},"type":"module"}"#),
    )];

    let seeds = seeds_of(changes, &packages, &graph);

    let noted = seeds.direct_packages.get(&"app".to_string()).unwrap();
    let details = noted.get(&path("/repo/app/package.json")).unwrap();
    assert!(details.len() > 1);
}

#[test]
fn only_some_texts_are_needed() {
    let file = |name: &str| ChangedFile { path: path(name), kind: ChangeKind::Modified };
    assert!(needs_texts(&file("/repo/a.ts")));
    assert!(needs_texts(&file("/repo/package.json")));
    assert!(needs_texts(&file("/repo/pnpm-lock.yaml")));
    assert!(!needs_texts(&file("/repo/bun.lockb")));
    assert!(!needs_texts(&file("/repo/logo.png")));
}

#[test]
fn texts_that_are_not_needed_do_not_matter() {
    let packages = vec![test_package("/repo", "app", "app")];
    let graph = build(
        &[("/repo/app/index.ts", "export const value = true;")],
        &[],
        &vec![target("app", "/repo/app/index.ts")],
        &packages,
    );
    let seeds = |before: Option<&str>, after: Option<&str>| {
        let kind = ChangeKind::Modified;
        seeds_of(vec![change("/repo/app/wrangler.jsonc", kind, before, after)], &packages, &graph)
    };
    let read = seeds(Some("{}"), Some("{ main: 'x' }"));
    let unread = seeds(None, None);

    assert_eq!(read.nodes.len(), unread.nodes.len());
    assert!(is_direct(&read, "app") && is_direct(&unread, "app"));
}

#[test]
fn a_fallback_concerns_every_target() {
    let graph = build(
        &[("/repo/a.ts", "export const a = 1;"), ("/repo/b.ts", "export const b = 1;")],
        &[],
        &vec![target("a", "/repo/a.ts"), target("b", "/repo/b.ts")],
        &vec![],
    );
    let changes =
        vec![change("/repo/yarn.lock", ChangeKind::Modified, Some("one"), Some("two"))];
    let seeds = seeds_of(changes, &vec![], &graph);

    assert!(is_direct(&seeds, "a") && is_direct(&seeds, "b"));
    assert_eq!(
        seeds.diagnostics[0].message,
        "lockfile changes conservatively affect every target because exact runtime consumers are not modeled for this lockfile format"
    );
}
