use monoripple::analysis::ChangeTexts;
use monoripple::collections::{KeyMap, KeySet};
use monoripple::data::Data;
use monoripple::diagnostics::{Diagnostic, Severity};
use monoripple::git::{ChangeKind, ChangedFile};
use monoripple::graph::explain::EdgeExplanation;
use monoripple::graph::{DependencyGraph, DiskFacts, Node};
use monoripple::parser::SourceLocation;
use monoripple::path::FilePath;
use monoripple::plugin::{
    config_path, DiagnosticExclusion, PluginConfig, PluginDiagnostic, PluginEdge, PluginEdgeKind,
    PluginNode, PluginOutput, PluginResponse, PluginTarget,
};
use monoripple::pnpm::lockfile::{PnpmImporter, PnpmLockfile};
use monoripple::query::command::{
    choose_mode, contains_text, plan_task, print_filters, runs_tests, shell_argument,
    uses_every_file, RootFiles, TaskPlan, TaskRunner, NO_PACKAGES,
};
use monoripple::query::extend::{extend_graph, files_with_roots};
use monoripple::query::modules::build_module_view;
use monoripple::query::report::{
    diagnostic_lines, diagnostics_fail, display_edge_location, display_node, display_path,
};
use monoripple::query::view::build_graph_view;
use monoripple::query::why::{explain_package, view_package};
use monoripple::query::{
    affected_packages, analyze, needs_base_graph, task_label, Analysis, OutputFormat, TaskKind,
    WarningPolicy,
};
use monoripple::viz::NodeKind;
use monoripple::workspace::{Package, Target};

fn path(text: &str) -> FilePath {
    FilePath::parse(text)
}

fn disk_with(files: &[&str]) -> DiskFacts {
    let mut disk = DiskFacts {
        canonical: KeyMap::new(),
        files: KeySet::new(),
        lookups: KeyMap::new(),
    };
    for file in files {
        disk.files.insert(path(file));
        disk.canonical.insert(path(file), path(file));
    }
    disk
}

fn target(package: &str, entrypoint: &str) -> Target {
    Target { package: package.to_string(), entrypoint: path(entrypoint) }
}

fn build(
    files: &[(&str, &str)],
    assets: &[&str],
    targets: &Vec<Target>,
    packages: &Vec<Package>,
) -> DependencyGraph {
    let mut present: Vec<&str> = files.iter().map(|file| file.0).collect();
    present.extend(assets);
    let sources = files.iter().map(|file| (path(file.0), file.1.to_string())).collect();
    match DependencyGraph::build(sources, targets, packages, disk_with(&present)) {
        Ok(graph) => graph,
        Err(error) => panic!("{}", error.message()),
    }
}

fn node(file: &str, symbol: &str) -> Node {
    Node::new(path(file), symbol.to_string())
}

const SHARED_BEFORE: &str = "export const used = 1; export const other = 1;";
const SHARED_AFTER: &str = "export const used = 2; export const other = 1;";

fn files() -> Vec<(&'static str, &'static str)> {
    vec![
        ("/repo/shared/index.ts", SHARED_AFTER),
        ("/repo/app-a/index.ts", "import { used } from '../shared';\nexport default used;"),
        ("/repo/app-b/index.ts", "import { other } from '../shared';\nexport default other;"),
    ]
}

fn package(name: &str) -> Package {
    Package {
        name: name.to_string(),
        dir: path("/repo").join_text(name),
        scripts: KeyMap::new(),
        entrypoint: None,
        exports: KeyMap::new(),
        dependencies: KeySet::new(),
    }
}

fn analysis(task: TaskKind) -> Analysis {
    let targets = vec![
        target("app-a", "/repo/app-a/index.ts"),
        target("app-b", "/repo/app-b/index.ts"),
    ];
    let packages = vec![package("app-a"), package("app-b"), package("shared")];
    let graph = build(&files(), &[], &targets, &packages);
    let changes = vec![ChangeTexts {
        change: ChangedFile { path: path("/repo/shared/index.ts"), kind: ChangeKind::Modified },
        before: Some(SHARED_BEFORE.to_string()),
        after: Some(SHARED_AFTER.to_string()),
        old_lockfile: None,
        new_lockfile: None,
    }];
    let found =
        analyze(&path("/repo"), graph, None, packages, &changes, KeySet::new(), task, "main");
    match found {
        Ok(analysis) => analysis,
        Err(error) => panic!("{}", error.message()),
    }
}

#[test]
fn only_packages_that_use_the_change_are_affected() {
    assert_eq!(affected_packages(&analysis(TaskKind::Deploy)), vec!["app-a".to_string()]);
    assert_eq!(
        affected_packages(&analysis(TaskKind::Typecheck)),
        vec!["app-a".to_string(), "shared".to_string()]
    );
    assert_eq!(task_label(TaskKind::Deploy), "deploy");
    assert_eq!(task_label(TaskKind::Typecheck), "typecheck");
}

#[test]
fn packages_that_crates_reach_are_affected_too() {
    let mut found = analysis(TaskKind::Deploy);
    found.crate_packages.insert("app-b".to_string());

    assert_eq!(affected_packages(&found), vec!["app-a".to_string(), "app-b".to_string()]);
}

#[test]
fn a_removed_export_reaches_its_former_consumers() {
    let targets = vec![target("app", "/repo/app.ts")];
    let base = build(
        &[
            ("/repo/shared.ts", "export const removed = 1;"),
            ("/repo/app.ts", "import { removed } from './shared'; export default removed;"),
        ],
        &[],
        &targets,
        &vec![],
    );
    let graph = build(
        &[
            ("/repo/shared.ts", "export const replacement = 1;"),
            ("/repo/app.ts", "export default 1;"),
        ],
        &[],
        &targets,
        &vec![],
    );
    let changes = vec![ChangeTexts {
        change: ChangedFile { path: path("/repo/shared.ts"), kind: ChangeKind::Modified },
        before: Some("export const removed = 1;".to_string()),
        after: Some("export const replacement = 1;".to_string()),
        old_lockfile: None,
        new_lockfile: None,
    }];
    let found = analyze(
        &path("/repo"),
        graph,
        Some(&base),
        vec![],
        &changes,
        KeySet::new(),
        TaskKind::Deploy,
        "main",
    )
    .unwrap_or_else(|error| panic!("{}", error.message()));

    assert_eq!(affected_packages(&found), vec!["app".to_string()]);
}

fn changed(file: &str, kind: ChangeKind) -> Vec<ChangedFile> {
    vec![ChangedFile { path: path(file), kind }]
}

#[test]
fn the_base_graph_is_needed_where_something_may_be_gone() {
    assert!(needs_base_graph(&changed("/repo/a.ts", ChangeKind::Modified)));
    assert!(needs_base_graph(&changed("/repo/a.css", ChangeKind::Deleted)));
    assert!(needs_base_graph(&changed("/repo/tsconfig.base.json", ChangeKind::Modified)));
    assert!(needs_base_graph(&changed("/repo/package.json", ChangeKind::Added)));
    assert!(!needs_base_graph(&changed("/repo/a.css", ChangeKind::Modified)));
    assert!(!needs_base_graph(&vec![]));
}

#[test]
fn a_base_text_that_cannot_be_parsed_fails_the_analysis() {
    let graph = build(&[("/repo/a.ts", "export const a = 1;")], &[], &vec![], &vec![]);
    let changes = vec![ChangeTexts {
        change: ChangedFile { path: path("/repo/a.ts"), kind: ChangeKind::Modified },
        before: Some("export const = ;".to_string()),
        after: Some("export const a = 1;".to_string()),
        old_lockfile: None,
        new_lockfile: None,
    }];
    let found = analyze(
        &path("/repo"),
        graph,
        None,
        vec![],
        &changes,
        KeySet::new(),
        TaskKind::Deploy,
        "main",
    );

    assert!(found.is_err());
}

#[test]
fn an_affected_package_is_explained() {
    let found = analysis(TaskKind::Deploy);
    let lines = explain_package(&path("/repo"), &found, "app-a").unwrap();
    let text = lines.join("\n");

    assert!(text.contains("shared/index.ts#used"));
    assert!(text.contains("imports `used` from `../shared`"));
    assert!(text.contains("app-a/index.ts:1:"));
    assert!(explain_package(&path("/repo"), &found, "app-b").is_err());
    assert!(explain_package(&path("/repo"), &found, "nowhere").is_err());
    assert!(explain_package(&path("/repo"), &analysis(TaskKind::Typecheck), "app-a").is_err());
}

#[test]
fn the_interactive_view_starts_at_the_change() {
    let found = analysis(TaskKind::Deploy);
    let model = view_package(&path("/repo"), &found, "app-a").unwrap_or_else(|e| panic!("{}", e));

    assert_eq!(model.package, "app-a");
    assert_eq!(model.base, "main");
    assert_eq!(model.paths[0][0].label, "shared/index.ts#used");
    assert!(model.can_be_shown());
}

#[test]
fn pages_link_only_their_own_nodes() {
    let found = analysis(TaskKind::Deploy);
    for view in [build_graph_view(&path("/repo"), &found), build_module_view(&path("/repo"), &found)]
    {
        assert_eq!(view.base, "main");
        assert!(!view.nodes.is_empty());
        for (i, node) in view.nodes.iter().enumerate() {
            assert_eq!(node.id, i);
        }
        for link in view.links.iter() {
            assert!(link.source < view.nodes.len() && link.target < view.nodes.len());
        }
        assert!(view.nodes.iter().any(|node| node.kind == NodeKind::Seed));
    }
}

#[test]
fn places_are_shown_from_the_root() {
    let root = path("/repo");
    assert_eq!(display_path(&root, &path("/repo/a/b.ts")), "a/b.ts");
    assert_eq!(display_path(&root, &path("/else/b.ts")), "/else/b.ts");
    assert_eq!(display_node(&root, &node("/repo/a.ts", "x")), "a.ts#x");
    let place = EdgeExplanation {
        detail: String::new(),
        path: Some(path("/repo/a.ts")),
        location: Some(SourceLocation { line: 3, column: 7 }),
    };
    assert_eq!(display_edge_location(&root, &place), Some("a.ts:3:7".to_string()));
}

fn finding(severity: Severity) -> Diagnostic {
    Diagnostic {
        code: "MONORIPPLE_UNRESOLVED_LOCAL_IMPORT",
        severity,
        message: "cannot resolve".to_string(),
        path: Some(path("/repo/a.ts")),
        members: vec![],
    }
}

fn shown(list: &Vec<Diagnostic>, format: OutputFormat, warnings: WarningPolicy, info: bool) -> usize {
    diagnostic_lines(&path("/repo"), list, format, warnings, info).len()
}

#[test]
fn warnings_can_be_hidden_or_fail() {
    let warning = vec![finding(Severity::Warning)];
    let error = vec![finding(Severity::Error)];
    let info = vec![finding(Severity::Info)];

    assert!(!diagnostics_fail(&warning, WarningPolicy::Off));
    assert!(!diagnostics_fail(&warning, WarningPolicy::Warn));
    assert!(diagnostics_fail(&warning, WarningPolicy::Error));
    assert!(diagnostics_fail(&error, WarningPolicy::Off));
    assert!(!diagnostics_fail(&info, WarningPolicy::Error));

    assert_eq!(shown(&warning, OutputFormat::Text, WarningPolicy::Off, true), 0);
    assert_eq!(shown(&warning, OutputFormat::Text, WarningPolicy::Warn, false), 1);
    assert_eq!(shown(&info, OutputFormat::Text, WarningPolicy::Warn, false), 0);
    assert_eq!(shown(&info, OutputFormat::Turbo, WarningPolicy::Warn, true), 1);
    assert_eq!(shown(&error, OutputFormat::Json, WarningPolicy::Warn, true), 0);
}

fn root_files(manifest: &str) -> RootFiles {
    RootFiles {
        pnpm_lock: false,
        bun_lock: false,
        yarn_lock: false,
        vite_plus_binary: false,
        manifest: manifest.to_string(),
    }
}

fn texts(list: &[&str]) -> Vec<String> {
    list.iter().map(|text| text.to_string()).collect()
}

#[test]
fn without_affected_packages_no_runner_is_started() {
    let plan =
        plan_task(&root_files("{}"), TaskRunner::Auto, "build", &vec![], &vec![], &vec![]);
    match plan {
        TaskPlan::Nothing { message } => assert_eq!(
            message,
            "no affected packages have a `build` task; the task runner was not invoked"
        ),
        TaskPlan::Run { .. } => panic!("expected nothing to be done"),
    }
}

#[test]
fn the_runner_is_found_by_the_files_of_the_root() {
    let mut files = root_files(r#"{"devDependencies":{"turbo":"^2"}}"#);
    files.pnpm_lock = true;
    let plan = plan_task(
        &files,
        TaskRunner::Turbo,
        "build",
        &texts(&["app", "web"]),
        &texts(&["--dry"]),
        &texts(&["a b"]),
    );
    match plan {
        TaskPlan::Run { program, arguments, message } => {
            assert!(!program.is_empty());
            assert!(arguments.contains(&"build".to_string()));
            assert!(arguments.contains(&"--filter=app".to_string()));
            assert!(arguments.contains(&"--filter=web".to_string()));
            assert_eq!(&arguments[arguments.len() - 2..], &texts(&["--", "a b"])[..]);
            assert!(message.starts_with("running: "));
            assert!(message.ends_with("-- 'a b'"));
        }
        TaskPlan::Nothing { .. } => panic!("expected a command"),
    }
}

#[test]
fn filters_select_nothing_where_nothing_is_affected() {
    assert_eq!(print_filters(&vec![]), NO_PACKAGES);
    assert_eq!(print_filters(&texts(&["a", "b"])), "--filter=a --filter=b");
}

#[test]
fn arguments_are_quoted_for_the_shell() {
    assert_eq!(shell_argument("--filter=@repo/app"), "--filter=@repo/app");
    assert_eq!(shell_argument("a b"), "'a b'");
    assert_eq!(shell_argument("it's"), r"'it'\''s'");
    assert_eq!(shell_argument(""), "");
    assert!(contains_text("vite-plus", "plus"));
    assert!(!contains_text("vite", "plus"));
}

#[test]
fn tasks_know_their_mode() {
    assert_eq!(choose_mode("check:type", None), TaskKind::Typecheck);
    assert_eq!(choose_mode("build", None), TaskKind::Deploy);
    assert_eq!(choose_mode("check:type", Some(TaskKind::Deploy)), TaskKind::Deploy);
    assert!(uses_every_file("lint"));
    assert!(uses_every_file("check:type"));
    assert!(!uses_every_file("build"));
    assert!(runs_tests("test:unit"));
    assert!(!runs_tests("latest"));
}

fn plugin_graph() -> DependencyGraph {
    build(
        &[("/repo/app.ts", "import './gone'; export const value = 1;")],
        &[],
        &vec![target("app", "/repo/app.ts")],
        &vec![],
    )
}

fn response(severity: Severity) -> PluginResponse {
    PluginResponse {
        targets: vec![PluginTarget {
            package: "extra".to_string(),
            roots: vec![path("app.ts")],
        }],
        edges: vec![PluginEdge {
            consumer: PluginNode { path: path("app.ts"), symbol: "value".to_string() },
            dependency: PluginNode { path: path("schema.sql"), symbol: "users".to_string() },
            kind: PluginEdgeKind::default(),
        }],
        diagnostics: vec![PluginDiagnostic {
            severity,
            message: "stale schema".to_string(),
            path: Some(path("schema.sql")),
        }],
    }
}

#[test]
fn plugins_add_targets_edges_and_findings() {
    let root = path("/repo");
    let mut output = PluginOutput::new(vec![]);
    output.plugin_responded(&root, "sql", response(Severity::Warning));
    output.plugin_failed(&root, "broken", "no such file\n");
    let graph = extend_graph(plugin_graph(), &root, &vec![], &output)
        .unwrap_or_else(|fault| panic!("{}", fault));

    let mut seeds = KeySet::new();
    seeds.insert(node("/repo/schema.sql", "users"));
    let reached = graph.affected(&seeds).reached;
    assert!(reached.contains(&DependencyGraph::target_node("app")));
    assert!(reached.contains(&DependencyGraph::target_node("extra")));
    let messages: Vec<&str> =
        graph.diagnostics.iter().map(|found| found.message.as_str()).collect();
    assert!(messages.contains(&"plugin `sql`: stale schema"));
    assert!(messages.contains(&"plugin `broken` failed: no such file"));
    assert!(diagnostics_fail(&graph.diagnostics, WarningPolicy::Off));
}

fn exclusion(code: &str, pattern: Option<&str>) -> DiagnosticExclusion {
    DiagnosticExclusion {
        code: code.to_string(),
        path: pattern.map(|text| text.to_string()),
        reason: "known".to_string(),
    }
}

fn unresolved(graph: &DependencyGraph) -> bool {
    graph.diagnostics.iter().any(|found| found.code == "MONORIPPLE_UNRESOLVED_LOCAL_IMPORT")
}

#[test]
fn exclusions_match_by_code_and_pattern() {
    let root = path("/repo");
    let code = "MONORIPPLE_UNRESOLVED_LOCAL_IMPORT";
    let extended = |list: Vec<DiagnosticExclusion>| {
        extend_graph(plugin_graph(), &root, &vec![], &PluginOutput::new(list))
    };
    assert!(unresolved(&plugin_graph()));
    assert!(extended(vec![exclusion(code, None)]).is_ok_and(|graph| !unresolved(&graph)));
    assert!(extended(vec![exclusion(code, Some("*.ts"))]).is_ok_and(|graph| !unresolved(&graph)));
    assert!(extended(vec![exclusion(code, Some("web/**"))]).is_ok_and(|graph| unresolved(&graph)));
    assert!(extended(vec![exclusion("OTHER", None)]).is_ok_and(|graph| unresolved(&graph)));
    assert!(extended(vec![exclusion(code, Some("a{b"))]).is_err());
}

#[test]
fn roots_of_plugins_are_files_too() {
    let targets = vec![PluginTarget {
        package: "extra".to_string(),
        roots: vec![path("b.ts"), path("a.ts")],
    }];
    let files = files_with_roots(&path("/repo"), &vec![path("/repo/a.ts")], &targets);
    let shown: Vec<String> = files.iter().map(|file| file.display()).collect();

    assert_eq!(shown, texts(&["/repo/a.ts", "/repo/b.ts"]));
}

#[test]
fn a_plugin_needs_a_command() {
    let none = PluginConfig { name: "empty".to_string(), command: vec![] };
    assert_eq!(none.program(), Err("plugin `empty` has an empty command".to_string()));
    let some = PluginConfig { name: "sql".to_string(), command: texts(&["node", "sql.js"]) };
    assert_eq!(some.program(), Ok(&"node".to_string()));
    assert_eq!(config_path(&path("/repo")).display(), "/repo/monoripple.json");
}

#[test]
fn a_changed_manifest_affects_its_package() {
    let targets = vec![target("app-a", "/repo/app-a/index.ts")];
    let packages = vec![package("app-a"), package("shared")];
    let graph = build(&files(), &["/repo/app-a/package.json"], &targets, &packages);
    let changes = vec![ChangeTexts {
        change: ChangedFile {
            path: path("/repo/app-a/package.json"),
            kind: ChangeKind::Modified,
        },
        before: Some(r#"{"name":"app-a"}"#.to_string()),
        after: Some(r#"{"name":"app-a","dependencies":{"shared":"1"}}"#.to_string()),
        old_lockfile: None,
        new_lockfile: None,
    }];
    let found = analyze(
        &path("/repo"),
        graph,
        None,
        packages,
        &changes,
        KeySet::new(),
        TaskKind::Deploy,
        "main",
    )
    .unwrap_or_else(|error| panic!("{}", error.message()));

    assert_eq!(affected_packages(&found), vec!["app-a".to_string()]);
    let lines = explain_package(&path("/repo"), &found, "app-a").unwrap();
    assert_eq!(lines[0], "app-a is directly affected by:");
    assert_eq!(lines[1], "  - app-a/package.json");
    assert!(lines[2].contains("shared"));
}

#[test]
fn lockfiles_that_are_not_modeled_are_warned_of() {
    let changed = |files: &[&str]| {
        let changes = files
            .iter()
            .map(|file| ChangeTexts {
                change: ChangedFile { path: path(file), kind: ChangeKind::Modified },
                before: None,
                after: None,
                old_lockfile: Some(Ok(empty_lockfile())),
                new_lockfile: Some(Ok(empty_lockfile())),
            })
            .collect();
        analyze(
            &path("/repo"),
            build(&[], &[], &vec![], &vec![]),
            None,
            vec![],
            &changes,
            KeySet::new(),
            TaskKind::Deploy,
            "main",
        )
        .unwrap_or_else(|error| panic!("{}", error.message()))
        .diagnostics
    };
    let note = "lockfile changes conservatively affect targets because exact runtime consumers are not modeled";

    let found = changed(&["/repo/Cargo.lock", "/repo/nested/pnpm-lock.yaml", "/repo/a.txt"]);
    let paths: Vec<String> =
        found.iter().map(|d| d.path.as_ref().unwrap().display()).collect();
    assert_eq!(paths, texts(&["/repo/Cargo.lock", "/repo/nested/pnpm-lock.yaml"]));
    assert!(found.iter().all(|d| d.code == "MONORIPPLE_LOCKFILE_CHANGE_UNMODELED"));
    assert!(found.iter().all(|d| d.message == note));
    assert!(diagnostics_fail(&found, WarningPolicy::Error));

    let at_root = changed(&["/repo/yarn.lock"]);
    assert_eq!(at_root.len(), 1);
    assert_eq!(at_root[0].message, note);

    assert!(changed(&["/repo/pnpm-lock.yaml"]).is_empty());
}

fn empty_lockfile() -> PnpmLockfile {
    let mut importers = KeyMap::new();
    importers.insert(
        "apps/app".to_string(),
        PnpmImporter {
            dependencies: KeyMap::new(),
            dev_dependencies: KeyMap::new(),
            optional_dependencies: KeyMap::new(),
            other: KeyMap::new(),
        },
    );
    PnpmLockfile {
        lockfile_version: Data::Text("9.0".to_string()),
        importers,
        packages: KeyMap::new(),
        snapshots: KeyMap::new(),
        global: KeyMap::new(),
    }
}
