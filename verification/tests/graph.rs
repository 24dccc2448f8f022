use monoripple::collections::{KeyMap, KeySet};
use monoripple::graph::questions::list_requests;
use monoripple::graph::{DependencyGraph, DiskFacts, FreshModule, Node, SourceFile};
use monoripple::parser::{parse_module, registry_entry_symbol, MODULE_INIT};
use monoripple::path::FilePath;
use monoripple::typescript::{TypeScriptFact, TypeScriptFacts, TypeScriptRegistry};
use monoripple::workspace::{Package, Target};

fn path(text: &str) -> FilePath {
    FilePath::parse(text)
}

fn disk_with(files: &[&str]) -> DiskFacts {
    let mut disk = DiskFacts {
        canonical: KeyMap::new(),
        files: KeySet::new(),
        lookups: KeyMap::new(),
    };
    for file in files {
        disk.files.insert(path(file));
        disk.canonical.insert(path(file), path(file));
    }
    disk
}

fn target(package: &str, entrypoint: &str) -> Target {
    Target { package: package.to_string(), entrypoint: path(entrypoint) }
}

fn build(
    files: &[(&str, &str)],
    assets: &[&str],
    targets: &Vec<Target>,
    packages: &Vec<Package>,
) -> DependencyGraph {
    let mut present: Vec<&str> = files.iter().map(|file| file.0).collect();
    present.extend(assets);
    let sources = files.iter().map(|file| (path(file.0), file.1.to_string())).collect();
    match DependencyGraph::build(sources, targets, packages, disk_with(&present)) {
        Ok(graph) => graph,
        Err(error) => panic!("{}", error.message()),
    }
}

fn node(file: &str, symbol: &str) -> Node {
    Node::new(path(file), symbol.to_string())
}

fn only(node: Node) -> KeySet<Node> {
    let mut out = KeySet::new();
    out.insert(node);
    out
}

fn reaches_target(graph: &DependencyGraph, seed: Node, package: &str) -> bool {
    graph.affected(&only(seed)).reached.contains(&DependencyGraph::target_node(package))
}

#[test]
fn reuses_local_parse_cache() {
    let source = "export const value = 1;";
    let file = path("/repo/index.ts");
    let first = DependencyGraph::build_with_cache(
        vec![SourceFile { path: file, source: source.to_string(), cached: None, fresh: None }],
        &vec![],
        &vec![],
        disk_with(&["/repo/index.ts"]),
    )
    .unwrap_or_else(|error| panic!("{}", error.message()));
    let kept = parse_module(&path("/repo/index.ts"), source).ok();
    let second = DependencyGraph::build_with_cache(
        vec![SourceFile {
            path: path("/repo/index.ts"),
            source: source.to_string(),
            cached: kept,
            fresh: None,
        }],
        &vec![],
        &vec![],
        disk_with(&["/repo/index.ts"]),
    )
    .unwrap_or_else(|error| panic!("{}", error.message()));

    assert_eq!(first.cache_stats.misses, 1);
    assert_eq!(second.cache_stats.local_hits, 1);
}

#[test]
fn reaches_only_the_target_importing_the_changed_symbol() {
    let targets =
        vec![target("app-a", "/repo/app-a.ts"), target("app-b", "/repo/app-b.ts")];
    let graph = build(
        &[
            ("/repo/shared.ts", "export const used = 1; export const unrelated = 2;"),
            ("/repo/app-a.ts", "import { used } from './shared'; export default used;"),
            ("/repo/app-b.ts", "import { unrelated } from './shared'; export default unrelated;"),
        ],
        &[],
        &targets,
        &vec![],
    );

    assert!(reaches_target(&graph, node("/repo/shared.ts", "used"), "app-a"));
    assert!(!reaches_target(&graph, node("/repo/shared.ts", "used"), "app-b"));
}

fn fact(file: &str, key: &str) -> TypeScriptFact {
    TypeScriptFact {
        file: path(file),
        consumer: "result".to_string(),
        registry_file: path("/repo/manifest.ts"),
        registry_symbol: "registry".to_string(),
        keys: Some(vec![key.to_string()]),
        line: 1,
        column: 60,
    }
}

#[test]
fn typescript_facts_narrow_indexed_array_registry_calls() {
    let targets = vec![target("alpha", "/repo/alpha.ts"), target("added", "/repo/added.ts")];
    let mut graph = build(
        &[
            (
                "/repo/manifest.ts",
                "const alpha = { name: 'alpha' } as const; const added = { name: 'added' } as const; export const registry = [alpha, added] as const;",
            ),
            (
                "/repo/runtime.ts",
                "import { registry } from './manifest'; const index = new Map(); export function lookup(key: string) { return index.get(key); } for (const entry of registry) { index.set(entry.name, entry); }",
            ),
            (
                "/repo/alpha.ts",
                "import { lookup } from './runtime'; const result = lookup('alpha'); export default result;",
            ),
            (
                "/repo/added.ts",
                "import { lookup } from './runtime'; const result = lookup('added'); export default result;",
            ),
        ],
        &[],
        &targets,
        &vec![],
    );
    let entry = registry_entry_symbol("registry", "added");
    assert!(reaches_target(&graph, node("/repo/manifest.ts", &entry), "alpha"));

    graph.apply_typescript_facts(&TypeScriptFacts {
        indexed_registries: vec![TypeScriptRegistry {
            file: path("/repo/manifest.ts"),
            symbol: "registry".to_string(),
        }],
        facts: vec![fact("/repo/alpha.ts", "alpha"), fact("/repo/added.ts", "added")],
    });
    assert!(reaches_target(&graph, node("/repo/manifest.ts", &entry), "added"));
    assert!(!reaches_target(&graph, node("/repo/manifest.ts", &entry), "alpha"));
    let registry = node("/repo/manifest.ts", "registry");
    let mut consumed = false;
    for i in 0..graph.edges.len() {
        consumed = consumed || graph.edges.value_at(i).contains(&registry);
    }
    assert!(consumed);
}

#[test]
fn returns_multiple_paths_with_source_explanations() {
    let targets = vec![target("app", "/repo/app.ts")];
    let graph = build(
        &[
            ("/repo/shared.ts", "export const changed = 1;"),
            (
                "/repo/app.ts",
                "import { changed } from './shared';\nconst viaA = changed + 1;\nconst viaB = changed + 2;\nconst result = viaA + viaB;\nexport { result as default };",
            ),
        ],
        &[],
        &targets,
        &vec![],
    );
    let seed = node("/repo/shared.ts", "changed");
    let reachability = graph.affected(&only(node("/repo/shared.ts", "changed")));
    let paths = graph.paths_to(&reachability, &DependencyGraph::target_node("app"), 20);

    assert_eq!(paths.len(), 2);
    assert!(paths.iter().any(|path| path.iter().any(|node| node.symbol == "viaA")));
    assert!(paths.iter().any(|path| path.iter().any(|node| node.symbol == "viaB")));

    let imported = node("/repo/app.ts", "changed");
    let explanation = graph.edge_explanation(&imported, &seed, false);
    assert!(explanation.detail.contains("imports `changed` from `./shared`"));
    assert_eq!(explanation.location.unwrap().line, 1);

    let local = graph.edge_explanation(&node("/repo/app.ts", "viaA"), &imported, false);
    assert!(local.detail.contains("references `changed`"));
    assert_eq!(local.location.unwrap().line, 2);

    let one = graph.paths_to(&reachability, &DependencyGraph::target_node("app"), 1);
    assert_eq!(one.len(), 1);
    let first = graph.path_to(&reachability, &DependencyGraph::target_node("app")).unwrap();
    assert!(first[0].same_as(&seed));
    assert!(first[first.len() - 1].same_as(&DependencyGraph::target_node("app")));
}

#[test]
fn propagates_type_only_changes_for_typecheck_queries() {
    let graph = build(
        &[
            ("/repo/shared.ts", "export interface Config { value: string }"),
            (
                "/repo/app.ts",
                "import type { Config } from './shared'; export type Options = Config;",
            ),
        ],
        &[],
        &vec![],
        &vec![],
    );
    let seeds = only(node("/repo/shared.ts", "Config"));
    let runtime = graph.affected(&seeds);
    let typecheck = graph.affected_typecheck(&seeds);

    assert!(!runtime.reached.contains(&node("/repo/app.ts", "Options")));
    assert!(typecheck.reached.contains(&node("/repo/app.ts", "Options")));
}

#[test]
fn base_graph_preserves_removed_export_dependencies() {
    let base_targets = vec![target("app", "/base/app.ts")];
    let current_targets = vec![target("app", "/current/app.ts")];
    let mut base = build(
        &[
            ("/base/shared.ts", "export const removed = 1;"),
            ("/base/app.ts", "import { removed } from './shared'; export default removed;"),
        ],
        &[],
        &base_targets,
        &vec![],
    );
    base.remap_root(&path("/base"), &path("/current"));
    let mut current = build(
        &[
            ("/current/shared.ts", "export const replacement = 1;"),
            ("/current/app.ts", "import { removed } from './shared'; export default removed;"),
        ],
        &[],
        &current_targets,
        &vec![],
    );
    current.merge_edges_from(&base);

    assert!(reaches_target(&current, node("/current/shared.ts", "removed"), "app"));
}

#[test]
fn reaches_target_through_top_level_execution() {
    let graph = build(
        &[(
            "/repo/app.ts",
            "const handler = () => 'ok'; export const router = {}; router.handler = handler;",
        )],
        &[],
        &vec![target("app", "/repo/app.ts")],
        &vec![],
    );

    assert!(reaches_target(&graph, node("/repo/app.ts", "handler"), "app"));
}

#[test]
fn reaches_target_through_literal_dynamic_import() {
    let graph = build(
        &[
            (
                "/repo/app.ts",
                "export async function load() { return (await import('./lazy')).value; }",
            ),
            ("/repo/lazy.ts", "export const value = 'old';"),
        ],
        &[],
        &vec![target("app", "/repo/app.ts")],
        &vec![],
    );

    assert!(reaches_target(&graph, node("/repo/lazy.ts", "value"), "app"));
}

#[test]
fn reaches_target_through_commonjs_require() {
    let graph = build(
        &[
            (
                "/repo/app.cjs",
                "const dependency = require('./dependency.cjs'); module.exports = () => dependency.value;",
            ),
            ("/repo/dependency.cjs", "const value = 'old'; exports.value = value;"),
        ],
        &[],
        &vec![target("app", "/repo/app.cjs")],
        &vec![],
    );

    assert!(reaches_target(&graph, node("/repo/dependency.cjs", "value"), "app"));
}

#[test]
fn reaches_target_through_imported_asset() {
    let graph = build(
        &[("/repo/app.ts", "import './style.css'; export const value = true;")],
        &["/repo/style.css"],
        &vec![target("app", "/repo/app.ts")],
        &vec![],
    );

    assert!(reaches_target(&graph, node("/repo/style.css", MODULE_INIT), "app"));
}

#[test]
fn resolves_workspace_exports_without_node_modules() {
    let mut exports = KeyMap::new();
    exports.insert(".".to_string(), path("/repo/packages/shared/src/index.ts"));
    let packages = vec![Package {
        name: "@repo/shared".to_string(),
        dir: path("/repo/packages/shared"),
        scripts: KeyMap::new(),
        entrypoint: Some(path("/repo/packages/shared/src/index.ts")),
        exports,
        dependencies: KeySet::new(),
    }];
    let graph = build(
        &[
            ("/repo/packages/shared/src/index.ts", "export const value = 1;"),
            (
                "/repo/apps/app/src/index.ts",
                "import { value } from '@repo/shared'; export default value;",
            ),
        ],
        &[],
        &vec![target("app", "/repo/apps/app/src/index.ts")],
        &packages,
    );

    assert!(reaches_target(&graph, node("/repo/packages/shared/src/index.ts", "value"), "app"));
}

#[test]
fn missing_imports_and_cycles_are_reported() {
    let graph = build(
        &[
            ("/repo/a.ts", "import { b } from './b'; export const a = () => b;"),
            ("/repo/b.ts", "import { a } from './a'; import './gone'; export const b = () => a;"),
        ],
        &[],
        &vec![target("app", "/repo/a.ts")],
        &vec![],
    );
    let codes: Vec<&str> = graph.diagnostics.iter().map(|found| found.code).collect();

    assert!(codes.contains(&"MONORIPPLE_UNRESOLVED_LOCAL_IMPORT"));
    assert!(codes.contains(&"MONORIPPLE_RUNTIME_MODULE_CYCLE"));
}

#[test]
fn a_virtual_entrypoint_is_reported_until_it_has_roots() {
    let mut graph = build(
        &[("/repo/router.ts", "export const router = {};")],
        &[],
        &vec![target("web", "/repo/virtual-entry")],
        &vec![],
    );
    assert!(graph
        .diagnostics
        .iter()
        .any(|found| found.code == "MONORIPPLE_VIRTUAL_OR_GENERATED_ENTRYPOINT"));

    graph.add_target_roots("web", &vec![path("/repo/router.ts")]);
    assert!(graph
        .diagnostics
        .iter()
        .all(|found| found.code != "MONORIPPLE_VIRTUAL_OR_GENERATED_ENTRYPOINT"));
    assert!(reaches_target(&graph, node("/repo/router.ts", "router"), "web"));
}

#[test]
fn external_edges_carry_a_change_to_their_consumers() {
    let mut graph = build(
        &[("/repo/app.ts", "export const value = 1;")],
        &[],
        &vec![target("app", "/repo/app.ts")],
        &vec![],
    );
    graph.add_external_edge(
        node("/repo/app.ts", "value"),
        node("/repo/schema.graphql", "Query"),
        false,
    );

    assert!(reaches_target(&graph, node("/repo/schema.graphql", "Query"), "app"));
}

#[test]
fn moving_a_graph_to_its_own_root_moves_nothing() {
    let mut graph = build(
        &[("/repo/app.ts", "export const value = 1;")],
        &[],
        &vec![target("app", "/repo/app.ts")],
        &vec![],
    );
    graph.remap_root(&path("/repo"), &path("/repo"));

    assert!(reaches_target(&graph, node("/repo/app.ts", "value"), "app"));
    assert!(graph.modules.contains_key(&path("/repo/app.ts")));
}

#[test]
fn a_broken_file_fails_the_build() {
    let sources = vec![(path("/repo/broken.ts"), "export const = ;".to_string())];
    let built =
        DependencyGraph::build(sources, &vec![], &vec![], disk_with(&["/repo/broken.ts"]));

    match built {
        Ok(_) => panic!("expected an error"),
        Err(error) => assert!(error.message().starts_with("failed to parse /repo/broken.ts: ")),
    }
}

#[test]
fn a_larger_change_reaches_at_least_as_much() {
    let graph = build(
        &[
            ("/repo/shared.ts", "export const one = 1; export const two = 2;"),
            ("/repo/app.ts", "import { one } from './shared'; export default one;"),
            ("/repo/web.ts", "import { two } from './shared'; export default two;"),
        ],
        &[],
        &vec![target("app", "/repo/app.ts"), target("web", "/repo/web.ts")],
        &vec![],
    );
    let mut seeds = only(node("/repo/shared.ts", "one"));
    let small = graph.affected(&seeds).reached;
    seeds.insert(node("/repo/shared.ts", "two"));
    let large = graph.affected(&seeds).reached;

    assert!(small.len() < large.len());
    for i in 0..small.len() {
        assert!(large.contains(small.at(i)));
    }
    assert!(large.contains(&DependencyGraph::target_node("web")));
}

#[test]
fn modules_that_were_parsed_before_count_as_parsed() {
    let build = |parsed_from: &str, named: &str| {
        DependencyGraph::build_with_cache(
            vec![SourceFile {
                path: path("/repo/a.ts"),
                source: "export const a = 1;".to_string(),
                cached: None,
                fresh: FreshModule::parse(&path(named), parsed_from).ok(),
            }],
            &vec![],
            &vec![],
            disk_with(&["/repo/a.ts"]),
        )
        .unwrap_or_else(|error| panic!("{}", error.message()))
    };
    let declares = |graph: &DependencyGraph, name: &str| {
        let module = graph.modules.get(&path("/repo/a.ts")).unwrap();
        module.symbols.contains_key(&name.to_string())
    };
    let fresh = build("export const a = 1;", "/repo/a.ts");
    assert_eq!((fresh.cache_stats.local_hits, fresh.cache_stats.misses), (0, 1));
    assert!(declares(&fresh, "a"));

    let other_text = build("export const b = 1;", "/repo/a.ts");
    assert!(declares(&other_text, "a") && !declares(&other_text, "b"));
    let other_path = build("export const a = 1;", "/repo/b.ts");
    assert_eq!(other_path.cache_stats.misses, 1);
    assert!(FreshModule::parse(&path("/repo/a.ts"), "export const = ;").is_err());
}

#[test]
fn kept_modules_give_the_same_graph() {
    let source = "import { b } from './b'; export const a = b;";
    let other = "export const b = 1;";
    let build = |keep: bool| {
        let file = |name: &str, text: &str| SourceFile {
            path: path(name),
            source: text.to_string(),
            cached: if keep { parse_module(&path(name), text).ok() } else { None },
            fresh: None,
        };
        DependencyGraph::build_with_cache(
            vec![file("/repo/a.ts", source), file("/repo/b.ts", other)],
            &vec![target("a", "/repo/a.ts")],
            &vec![],
            disk_with(&["/repo/a.ts", "/repo/b.ts"]),
        )
        .unwrap_or_else(|error| panic!("{}", error.message()))
    };
    let fresh = build(false);
    let kept = build(true);

    assert_eq!((fresh.cache_stats.local_hits, fresh.cache_stats.misses), (0, 2));
    assert_eq!((kept.cache_stats.local_hits, kept.cache_stats.misses), (2, 0));
    assert_eq!(fresh.edges.len(), kept.edges.len());
    for i in 0..fresh.edges.len() {
        assert!(fresh.edges.key_at(i).same_as(kept.edges.key_at(i)));
        assert_eq!(fresh.edges.value_at(i).len(), kept.edges.value_at(i).len());
    }
}

#[test]
fn everything_that_a_module_asks_for_is_listed() {
    let module = parse_module(
        &path("/repo/a.ts"),
        "import { a } from './a'; import type { T } from './t'; export { b } from './b'; export * from './c'; export const d = require('./d'); export const U: T = a; import './e';",
    )
    .unwrap_or_else(|error| panic!("{}", error.message()));
    let requests = list_requests(&module);
    let listed: Vec<&str> = (0..requests.len()).map(|i| requests.at(i).as_str()).collect();

    assert_eq!(listed, vec!["./a", "./b", "./c", "./d", "./e", "./t"]);
}

#[test]
fn chains_that_do_not_come_to_their_seed_give_no_path() {
    let graph = build(&[("/repo/a.ts", "export const a = 1;")], &[], &vec![], &vec![]);
    let at = |name: &str| node("/repo/a.ts", name);
    let chained = |links: &[(&str, &str)]| {
        let mut reachability = graph.affected(&only(at("seed")));
        reachability.reached.insert(at("end"));
        reachability.seed_for.insert(at("end"), at("seed"));
        for (name, previous) in links {
            reachability.previous.insert(at(name), at(previous));
        }
        reachability
    };
    let names = |path: Vec<Node>| path.into_iter().map(|n| n.symbol).collect::<Vec<String>>();

    let whole = chained(&[("end", "middle"), ("middle", "seed")]);
    assert_eq!(names(graph.path_to(&whole, &at("end")).unwrap()), ["seed", "middle", "end"]);
    assert_eq!(graph.paths_to(&whole, &at("end"), 1).len(), 1);
    let broken = chained(&[("end", "middle")]);
    assert!(graph.path_to(&broken, &at("end")).is_none());
    assert!(graph.paths_to(&broken, &at("end"), 20).is_empty());
    let round = chained(&[("end", "middle"), ("middle", "end")]);
    assert!(graph.path_to(&round, &at("end")).is_none());
    assert!(graph.path_to(&whole, &at("elsewhere")).is_none());
}

#[test]
fn paths_grow_and_come_to_no_node_twice() {
    let targets = vec![target("app", "/repo/app.ts")];
    let graph = build(
        &[
            ("/repo/shared.ts", "export const one = 1; export const two = one;"),
            (
                "/repo/app.ts",
                "import { one, two } from './shared';\nconst a = one;\nconst b = a + two;\nconst c = b + a;\nexport { c as default };",
            ),
        ],
        &[],
        &targets,
        &vec![],
    );
    let seed = node("/repo/shared.ts", "one");
    let reachability = graph.affected(&only(node("/repo/shared.ts", "one")));
    let app = DependencyGraph::target_node("app");
    let paths = graph.paths_to(&reachability, &app, 20);
    let first = graph.path_to(&reachability, &app).unwrap();

    assert!(paths.len() > 1);
    assert_eq!(paths[0].len(), first.len());
    for (i, path) in paths.iter().enumerate() {
        assert!(i == 0 || paths[i - 1].len() <= path.len());
        assert!(path[0].same_as(&seed));
        assert!(path[path.len() - 1].same_as(&app));
        for (j, here) in path.iter().enumerate() {
            assert!(path.iter().skip(j + 1).all(|there| !there.same_as(here)));
        }
    }
}

#[test]
fn a_graph_that_is_moved_comes_back() {
    let targets = vec![target("app", "/repo/app.ts")];
    let files = [
        ("/repo/shared.ts", "export const value = 1;"),
        ("/repo/app.ts", "import { value } from './shared'; export default value;"),
    ];
    let first = build(&files, &[], &targets, &vec![]);
    let mut moved = build(&files, &[], &targets, &vec![]);
    moved.remap_root(&path("/repo"), &path("/elsewhere"));
    assert!(reaches_target(&moved, node("/elsewhere/shared.ts", "value"), "app"));
    moved.remap_root(&path("/elsewhere"), &path("/repo"));

    assert!(moved.modules.contains_key(&path("/repo/shared.ts")));
    assert!(!moved.modules.contains_key(&path("/elsewhere/shared.ts")));
    assert_eq!(moved.edges.len(), first.edges.len());
    for i in 0..first.edges.len() {
        assert!(moved.edges.key_at(i).same_as(first.edges.key_at(i)));
        assert_eq!(moved.edges.value_at(i).len(), first.edges.value_at(i).len());
    }
}

#[test]
fn entries_have_symbols_of_their_own() {
    let symbol = registry_entry_symbol("registry", "added");
    assert_eq!(symbol, "registry[\"added\"]");
    assert_ne!(symbol, registry_entry_symbol("registry", "other"));
    assert_ne!(symbol, registry_entry_symbol("others", "added"));
    assert_ne!(symbol, "registry");
}
