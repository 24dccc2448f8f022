use monoripple::analysis::describe::{describe_direct_input, describe_manifest};
use monoripple::cache::{default_cache_dir, parse_cache_path, parse_key};
use monoripple::collections::{KeyMap, KeySet};
use monoripple::data::{from_json, from_yaml, parse_json5, Data};
use monoripple::git::{
    changed_files, extracts, object_name, repository_root, split_lines, ChangeKind,
};
use monoripple::graph::questions::{files_to_check, lookups_to_make};
use monoripple::graph::DiskFacts;
use monoripple::lookup::same_data;
use monoripple::order::{Key, Rank};
use monoripple::parser::source::SourceText;
use monoripple::parser::{is_source_file, is_test_file, registry_entry_symbol};
use monoripple::path::FilePath;
use monoripple::sorting::sort_by_key;
use monoripple::text::{decimal_text, is_white_space, join, split_on, trim, trim_leading};
use monoripple::typescript::plan::prepare;
use monoripple::typescript::{choose_tsgo, file_uri, is_preview_name, needs_link};
use monoripple::ui::{
    cycles_entered, list_step, write_position, KeyPress, Selection, WhyUiItem, WhyUiModel,
};
use monoripple::viz::{render_html, replace_all};
use monoripple::walk::closure;
use monoripple::words::{split_words, take_before, take_behind_last, trim_leads};

fn path(text: &str) -> FilePath {
    FilePath::parse(text)
}

fn empty_disk() -> DiskFacts {
    DiskFacts { canonical: KeyMap::new(), files: KeySet::new(), lookups: KeyMap::new() }
}

fn json_data(text: &str) -> Data {
    let value: serde_json::Value = serde_json::from_str(text).unwrap();
    from_json(&value)
}

#[test]
fn paths_are_read_and_shown() {
    assert_eq!(path("/a//b/./c/").display(), "/a/b/c");
    assert_eq!(path("a/../b").display(), "a/../b");
    assert_eq!(path("/a/b.test.ts").extension(), Some("ts".to_string()));
    assert_eq!(path("/a/b.test.ts").file_stem(), Some("b.test".to_string()));
    assert_eq!(path("/a/.env").extension(), None);
    assert_eq!(path("/a").join_text("/b").display(), "/b");
    assert_eq!(path("/a/b").strip_prefix(&path("/a")).unwrap().display(), "b");
    assert!(path("/ab").strip_prefix(&path("/a")).is_none());
    assert_eq!(path("/a/b.js").with_extension("ts").display(), "/a/b.ts");
    assert_eq!(path("a").parent().unwrap().display(), "");
    assert!(path("/").parent().is_none());
    assert_eq!(path("/a/b").rank(&path("/a-b")), Rank::Before);
}

#[test]
fn texts_are_cut_and_joined() {
    assert_eq!(trim("\u{3000} a b\t\n"), "a b");
    assert_eq!(trim_leading("//a/", '/'), "a/");
    assert_eq!(split_on("a,,b", ','), vec!["a", "", "b"]);
    assert_eq!(join(&vec!["a".to_string(), "b".to_string()], " -> "), "a -> b");
    assert_eq!(decimal_text(0), "0");
    assert_eq!(decimal_text(1205), "1205");
    assert_eq!(split_words("  bun  run\tsrc/a.ts "), vec!["bun", "run", "src/a.ts"]);
    assert_eq!(trim_leads("././a", "./"), "a");
    assert_eq!(take_before("check:type", ':'), "check");
    assert_eq!(take_behind_last("a/b/c", '/'), "c");
    assert_eq!(split_lines("a\r\nb\n\nc"), vec!["a", "b", "", "c"]);
}

#[test]
fn registry_entries_are_named_by_quoted_keys() {
    assert_eq!(registry_entry_symbol("registry", "a\"b\n"), r#"registry["a\"b\n"]"#);
}

#[test]
fn sets_and_maps_keep_their_keys_in_order() {
    let mut set = KeySet::new();
    assert!(set.insert("b".to_string()));
    assert!(set.insert("a".to_string()));
    assert!(!set.insert("b".to_string()));
    assert_eq!((set.at(0).as_str(), set.at(1).as_str()), ("a", "b"));
    assert!(set.remove(&"a".to_string()));
    assert_eq!(set.len(), 1);

    let mut map = KeyMap::new();
    map.insert("k".to_string(), 1u32);
    map.insert("k".to_string(), 2u32);
    assert_eq!(map.get(&"k".to_string()), Some(&2));
    assert_eq!(map.remove(&"k".to_string()), Some(2));
    assert_eq!(map.len(), 0);
}

#[test]
fn sorting_keeps_equal_keys_in_their_order() {
    let pairs = vec![
        ("b".to_string(), 1u32),
        ("a".to_string(), 2u32),
        ("b".to_string(), 3u32),
    ];
    assert_eq!(sort_by_key(pairs), vec![2, 1, 3]);
}

#[test]
fn a_closure_holds_what_can_be_reached() {
    let mut graph = KeyMap::new();
    graph.link("a".to_string(), "b".to_string());
    graph.link("b".to_string(), "c".to_string());
    graph.link("d".to_string(), "a".to_string());
    let mut start = KeySet::new();
    start.insert("a".to_string());
    let reached = closure(&graph, &start);

    assert_eq!(reached.len(), 3);
    assert!(!reached.contains(&"d".to_string()));
}

fn text_under(data: &Data, name: &str) -> Option<String> {
    data.get(name).and_then(|value| value.as_str()).map(|text| text.to_string())
}

#[test]
fn data_is_read_from_three_formats() {
    let json = json_data(r#"{"name":"app","list":[1,true,null]}"#);
    assert_eq!(text_under(&json, "name"), Some("app".to_string()));
    let json5 = parse_json5("{ // comment\n name: 'app', }").unwrap();
    assert_eq!(text_under(&json5, "name"), Some("app".to_string()));
    assert!(parse_json5("{").is_none());
    let value: serde_yaml::Value = serde_yaml::from_str("name: app\nlist:\n  - 1\n").unwrap();
    let yaml = from_yaml(&value);
    assert_eq!(text_under(&yaml, "name"), Some("app".to_string()));
    assert!(same_data(&json, &json.copy()));
    assert!(!same_data(&json, &json5));
}

#[test]
fn keys_of_kept_modules_depend_on_text_and_extension() {
    let key = parse_key(&path("/repo/a.ts"), "export {};");
    assert_eq!(key.len(), 64);
    assert!(key.chars().all(|c| c.is_ascii_hexdigit() && !c.is_ascii_uppercase()));
    assert_eq!(key, parse_key(&path("/repo/b.ts"), "export {};"));
    assert_ne!(key, parse_key(&path("/repo/a.tsx"), "export {};"));
    assert_ne!(key, parse_key(&path("/repo/a.ts"), "export { };"));
    let place = parse_cache_path(&path("/cache"), &path("/repo/a.ts"), "export {};");
    assert_eq!(place.display(), format!("/cache/parse-v7/{key}.json"));
}

#[test]
fn the_cache_stands_where_the_environment_says() {
    let dir = |own: Option<&str>, desktop: Option<&str>, home: Option<&str>| {
        default_cache_dir(own.map(path), desktop.map(path), home.map(path))
            .map(|found| found.display())
    };
    assert_eq!(dir(Some("/own"), Some("/xdg"), Some("/home")), Some("/own".to_string()));
    assert_eq!(dir(None, Some("/xdg"), Some("/home")), Some("/xdg/monoripple".to_string()));
    assert_eq!(dir(None, None, Some("/home")), Some("/home/.cache/monoripple".to_string()));
    assert_eq!(dir(None, None, None), None);
}

#[test]
fn changes_are_read_off_git() {
    let root = path("/repo");
    let list = changed_files(
        &root,
        "M\tsrc/b.ts\nR087\told.ts\tsrc/a.ts\nD\tgone.ts\nA\tnew.ts\n",
        "untracked.ts\n",
    );
    let shown: Vec<String> = list.iter().map(|change| change.path.display()).collect();
    assert_eq!(
        shown,
        vec![
            "/repo/gone.ts",
            "/repo/new.ts",
            "/repo/src/a.ts",
            "/repo/src/b.ts",
            "/repo/untracked.ts"
        ]
    );
    assert!(matches!(list[0].kind, ChangeKind::Deleted));
    assert!(matches!(list[1].kind, ChangeKind::Added));
    match &list[2].kind {
        ChangeKind::Renamed { old_path } => assert!(old_path.display().ends_with("old.ts")),
        _ => panic!("expected a renaming"),
    }
    assert!(matches!(list[3].kind, ChangeKind::Modified));
    assert!(matches!(list[4].kind, ChangeKind::Added));
    assert_eq!(repository_root("/repo\n").display(), "/repo");
    assert_eq!(object_name(&root, "main", &path("/repo/src/a.ts")), "main:src/a.ts");
    assert!(extracts(&path("src/a.ts")));
    assert!(!extracts(&path("src/.env.local")));
}

#[test]
fn sources_and_tests_are_told_by_their_names() {
    assert!(is_source_file(&path("a.mts")));
    assert!(!is_source_file(&path("a.css")));
    assert!(is_test_file(&path("a.test.ts")));
    assert!(!is_test_file(&path("a.ts")));
}

#[test]
fn places_count_characters() {
    let text = SourceText::new("é = 1;\nx");
    let place = text.location(8);
    assert_eq!((place.line, place.column), (2, 1));
    assert_eq!(text.get(0, 2), Some("é".to_string()));
    assert_eq!(text.get(1, 2), None);
    assert_eq!(text.position(3), (0, 2));
}

#[test]
fn relative_requests_ask_for_candidates() {
    let asked: Vec<String> = files_to_check(&path("/repo/a/b.ts"), "../c.js")
        .iter()
        .map(|file| file.display())
        .collect();
    assert_eq!(asked, vec!["/repo/c.ts", "/repo/c.tsx", "/repo/c.js"]);
    assert_eq!(lookups_to_make(&vec![], &path("/repo/a.ts"), "#lib").len(), 1);
    assert_eq!(lookups_to_make(&vec![], &path("/repo/a.ts"), "./lib").len(), 0);
}

#[test]
fn files_have_addresses() {
    let uri = file_uri(&empty_disk(), &path("/repo/a b.ts"));
    assert_eq!(uri, Ok("file:///repo/a%20b.ts".to_string()));
    assert_eq!(
        file_uri(&empty_disk(), &path("a.ts")),
        Err("cannot convert a.ts to a file URI".to_string())
    );
}

#[test]
fn the_compiler_is_chosen_in_order() {
    let cached = vec![path("/cache/b"), path("/cache/c"), path("/cache/a")];
    let chosen = |named: Option<&str>, found: Option<&str>| {
        choose_tsgo(named.map(path), found.map(path), &cached).map(|found| found.display())
    };
    assert_eq!(chosen(Some("/named"), Some("/found")), Some("/named".to_string()));
    assert_eq!(chosen(None, Some("/found")), Some("/found".to_string()));
    assert_eq!(chosen(None, None), Some("/cache/c".to_string()));
    assert!(choose_tsgo(None, None, &vec![]).is_none());
    assert!(is_preview_name("@typescript/native-preview-linux-x64"));
    assert!(!is_preview_name("typescript"));
    assert!(needs_link(&path("/a"), &path("/b"), false, true));
    assert!(!needs_link(&path("/a"), &path("/a"), false, true));
}

const REGISTRY: &str = "const alpha = { name: 'alpha' } as const; const added = { name: 'added' } as const; export const registry = [alpha, added] as const;";

const RUNTIME: &str = "import { registry } from './manifest'; export interface Api { lookup<K extends string>(key: K): string } const index = new Map(); for (const entry of registry) { index.set(entry.name, entry); }";

#[test]
fn calls_of_contracts_become_questions() {
    let files = vec![
        (path("/repo/manifest.ts"), REGISTRY.to_string()),
        (path("/repo/runtime.ts"), RUNTIME.to_string()),
        (
            path("/repo/app.ts"),
            "declare const api: any; const result = api.lookup('alpha'); export default result;"
                .to_string(),
        ),
    ];
    let plan = prepare(&files).unwrap_or_else(|error| panic!("{}", error.message()));
    match plan {
        Some(plan) => {
            assert_eq!(plan.calls.len(), 1);
            assert_eq!(plan.contracts.len(), 1);
            let (file, line, character) = plan.ask(0).unwrap();
            assert_eq!((file.display().as_str(), line, character), ("/repo/app.ts", 0, 43));
            let keys = |hover: Option<&str>| {
                let hovers = vec![hover.map(|text| text.to_string())];
                plan.conclude(&hovers).map(|mut found| found.facts.remove(0).keys)
            };
            assert_eq!(keys(None), Some(None));
            assert_eq!(keys(Some("any")), Some(None));
            assert_eq!(
                keys(Some("(method) Api.lookup<\"alpha\">(key: \"alpha\"): string")),
                Some(Some(vec!["alpha".to_string()]))
            );
            assert_eq!(keys(Some("(method) Other.find(): string")), None);
        }
        None => panic!("expected questions"),
    }
    let none = prepare(&vec![(path("/repo/a.ts"), "export const a = 1;".to_string())]);
    assert!(none.is_ok_and(|plan| plan.is_none()));
    assert!(prepare(&vec![(path("/repo/a.ts"), "export const = ;".to_string())]).is_err());
}

fn item(label: &str) -> WhyUiItem {
    WhyUiItem { label: label.to_string(), detail: String::new() }
}

fn model() -> WhyUiModel {
    WhyUiModel {
        package: "app".to_string(),
        base: "main".to_string(),
        paths: vec![vec![item("a.ts#x"), item("b.ts#y"), item("app")], vec![item("c.ts")]],
        cycles: vec![vec!["b.ts".to_string(), "c.ts".to_string()]],
    }
}

#[test]
fn keys_move_the_selection() {
    let model = model();
    let at = |path: usize, step: usize| Selection { path, step };
    assert_eq!(model.press(at(0, 0), KeyPress::Char('q')), None);
    assert_eq!(model.press(at(0, 0), KeyPress::Esc), None);
    assert_eq!(model.press(at(0, 0), KeyPress::Down), Some(at(0, 1)));
    assert_eq!(model.press(at(0, 2), KeyPress::Down), Some(at(0, 2)));
    assert_eq!(model.press(at(0, 0), KeyPress::Up), Some(at(0, 0)));
    assert_eq!(model.press(at(0, 1), KeyPress::End), Some(at(0, 2)));
    assert_eq!(model.press(at(0, 1), KeyPress::Home), Some(at(0, 0)));
    let moved = model.press(at(0, 2), KeyPress::Right).unwrap();
    assert_eq!((moved.path, moved.step), (1, 0));
    assert!(!WhyUiModel { paths: vec![], ..model }.can_be_shown());
}

#[test]
fn steps_are_listed_with_their_signs() {
    let model = model();
    assert_eq!(list_step(&model.paths[0], 0), "● a.ts#x");
    assert_eq!(list_step(&model.paths[0], 1), "↓ b.ts#y");
    assert_eq!(list_step(&model.paths[0], 2), "◆ app");
    assert_eq!(write_position(0, 2), "  path 1/2");
    assert_eq!(cycles_entered(&model, &model.paths[0][1]), vec![0]);
    assert!(cycles_entered(&model, &model.paths[0][0]).is_empty());
}

#[test]
fn pages_carry_their_data() {
    assert_eq!(replace_all("a-b-a", "a", "aa"), "aa-b-aa");
    assert_eq!(
        render_html("<script>const data = /*__DATA__*/null;</script>", r#"{"a":1}"#),
        r#"<script>const data = {"a":1};</script>"#
    );
}

#[test]
fn direct_inputs_are_described() {
    let described = describe_direct_input(
        Some("package.json"),
        &ChangeKind::Modified,
        Some(r#"{"dependencies":{"a":"1"}}"#),
        Some(r#"{"dependencies":{"a":"2"}}"#),
    );
    assert!(!described.is_empty());
    let other = describe_direct_input(Some("wrangler.jsonc"), &ChangeKind::Deleted, None, None);
    assert_eq!(other.len(), 1);
}

#[test]
fn manifests_are_compared_line_by_line() {
    let value = |text: &str| serde_json::from_str::<serde_json::Value>(text).unwrap();
    let before = value(r#"{"dependencies":{"a":"1","b":"1"},"scripts":{"build":"x"}}"#);
    let after = value(r#"{"dependencies":{"a":"2","c":"1"},"scripts":{"build":"x"}}"#);
    assert_eq!(
        describe_manifest(&before, &after),
        vec![
            "changed dependency `a` from 1 to 2".to_string(),
            "removed dependency `b`".to_string(),
            "added dependency `c` = 1".to_string(),
        ]
    );
}

#[test]
fn white_space_is_that_of_unicode() {
    for n in 0..=0x10ffff {
        if let Some(c) = char::from_u32(n) {
            assert_eq!(is_white_space(c), c.is_whitespace(), "U+{:04X}", n);
        }
    }
}
