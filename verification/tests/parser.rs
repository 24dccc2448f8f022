use monoripple::collections::{KeyMap, KeySet};
use monoripple::parser::{
    parse_module, ImportedName, ParseError, ParsedModule, RegistryInfo, SymbolInfo, MODULE_INIT,
};
use monoripple::path::FilePath;

fn parse(source: &str) -> ParsedModule {
    match parse_module(&FilePath::parse("fixture.ts"), source) {
        Ok(module) => module,
        Err(error) => panic!("{}", error.message()),
    }
}

fn at<'a, V>(map: &'a KeyMap<String, V>, key: &str) -> &'a V {
    map.get(&key.to_string()).unwrap()
}

fn has<V>(map: &KeyMap<String, V>, key: &str) -> bool {
    map.contains_key(&key.to_string())
}

fn holds(set: &KeySet<String>, name: &str) -> bool {
    set.contains(&name.to_string())
}

fn names(set: &KeySet<String>) -> Vec<String> {
    let mut out = Vec::new();
    let mut i: usize = 0;
    while i < set.len() {
        out.push(set.at(i).clone());
        i += 1;
    }
    out
}

fn keys<V>(map: &KeyMap<String, V>) -> Vec<String> {
    let mut out = Vec::new();
    let mut i: usize = 0;
    while i < map.len() {
        out.push(map.key_at(i).clone());
        i += 1;
    }
    out
}

fn symbol<'a>(module: &'a ParsedModule, name: &str) -> &'a SymbolInfo {
    at(&module.symbols, name)
}

fn registry<'a>(module: &'a ParsedModule, name: &str) -> &'a RegistryInfo {
    at(&module.registries, name)
}

fn imported_name(name: &ImportedName) -> Option<&str> {
    match name {
        ImportedName::Named(name) => Some(name.as_str()),
        ImportedName::Namespace { .. } => None,
    }
}

fn same_symbol(a: &SymbolInfo, b: &SymbolInfo) -> bool {
    let mut same = a.fingerprint == b.fingerprint
        && names(&a.dependencies) == names(&b.dependencies)
        && names(&a.type_dependencies) == names(&b.type_dependencies)
        && keys(&a.dependency_locations) == keys(&b.dependency_locations)
        && keys(&a.type_dependency_locations) == keys(&b.type_dependency_locations)
        && keys(&a.keyed_dependencies) == keys(&b.keyed_dependencies)
        && a.runtime == b.runtime;
    for key in keys(&a.dependency_locations) {
        same = same && at(&a.dependency_locations, &key) == at(&b.dependency_locations, &key);
    }
    for key in keys(&a.type_dependency_locations) {
        same = same
            && at(&a.type_dependency_locations, &key) == at(&b.type_dependency_locations, &key);
    }
    for key in keys(&a.keyed_dependencies) {
        same = same
            && names(at(&a.keyed_dependencies, &key)) == names(at(&b.keyed_dependencies, &key));
    }
    same
}

#[test]
fn finds_symbol_dependencies_and_runtime_imports() {
    let module = parse(
        r#"
                import { value, type Shape } from './dependency';
                const unused = 1;
                export const result = value + 1;
                export type Result = Shape;
            "#,
    );

    assert_eq!(imported_name(&at(&module.imports, "value").imported), Some("value"));
    assert!(!has(&module.imports, "Shape"));
    assert!(holds(&symbol(&module, "result").dependencies, "value"));
    assert_eq!(at(&module.imports, "value").location.line, 2);
    assert_eq!(at(&symbol(&module, "result").dependency_locations, "value").line, 4);
    assert!(!symbol(&module, "Result").runtime);
    assert_eq!(at(&module.local_exports, "result"), "result");
    assert!(!has(&module.local_exports, "Result"));
}

#[test]
fn records_reexports() {
    let module =
        parse("export { value as renamed } from './dependency'; export * from './other';");

    assert_eq!(module.re_exports[0].exported, "renamed");
    assert_eq!(module.star_exports, vec!["./other"]);
}

#[test]
fn comments_do_not_change_fingerprints() {
    let before = parse("// old wording\nconst schema = { name: 'view' };");
    let after = parse("// new wording\nconst schema = { name: 'view' };");

    assert_eq!(keys(&before.symbols), keys(&after.symbols));
    for name in keys(&before.symbols) {
        assert!(same_symbol(symbol(&before, &name), symbol(&after, &name)));
    }
}

#[test]
fn fingerprints_static_registry_entries_independently() {
    let before = parse("export const registry = { alpha: 1, beta: 2 };");
    let after = parse("export const registry = { alpha: 1, beta: 2, added: 3 };");

    assert_eq!(
        symbol(&before, "registry").fingerprint,
        symbol(&after, "registry").fingerprint
    );
    assert_eq!(
        at(&registry(&before, "registry").entries, "alpha").fingerprint,
        at(&registry(&after, "registry").entries, "alpha").fingerprint
    );
    assert!(has(&registry(&after, "registry").entries, "added"));
}

#[test]
fn records_literal_registry_accesses() {
    let module = parse(
        "const registry = { alpha: 1, beta: 2 }; const alpha = registry.alpha; const beta = registry['beta'];",
    );

    assert_eq!(
        names(at(&symbol(&module, "alpha").keyed_dependencies, "registry")),
        vec!["alpha".to_string()]
    );
    assert_eq!(
        names(at(&symbol(&module, "beta").keyed_dependencies, "registry")),
        vec!["beta".to_string()]
    );
}

#[test]
fn rejects_dynamic_or_mutating_registry_accesses() {
    let module = parse(
        "const registry = { alpha: 1 }; const dynamic = registry[key]; registry.alpha = 2;",
    );

    assert_eq!(symbol(&module, "dynamic").keyed_dependencies.len(), 0);
    assert_eq!(symbol(&module, MODULE_INIT).keyed_dependencies.len(), 0);
}

#[test]
fn effectful_registry_values_use_the_whole_declaration() {
    let module = parse(
        "declare function create(): number; export const registry = { alpha: 1, beta: create() };",
    );

    assert!(!has(&module.registries, "registry"));
}

#[test]
fn recognizes_named_array_registry_and_index_builder() {
    let module = parse(
        "const alpha = { name: 'alpha', slots: {} } as const; const beta = { name: 'beta', slots: {} } as const; export const registry = [alpha, beta] as const; const index = new Map(); function lookup(key: string) { return index.get(key); } for (const entry of registry) { index.set(entry.name, entry); }",
    );

    assert_eq!(
        at(&registry(&module, "registry").entries, "alpha").dependency,
        Some("alpha".to_string())
    );
    assert!(holds(&module.indexed_registry_dependencies, "registry"));
    assert!(holds(&symbol(&module, MODULE_INIT).dependencies, "registry"));
}

#[test]
fn unsafe_named_arrays_and_index_builders_fall_back() {
    let getter = parse(
        "const alpha = { name: 'alpha', get slots() { return registry.length; } } as const; const registry = [alpha] as const;",
    );
    let mutation = parse(
        "const alpha = { name: 'alpha' } as const; const registry = [alpha] as const; const index = new Map(); function lookup(key: string) { return index.get(key); } for (const entry of registry) { index.set(entry.name, entry); } index.clear();",
    );
    let extra_enumeration = parse(
        "const alpha = { name: 'alpha' } as const; const registry = [alpha] as const; const index = new Map(); function lookup(key: string) { return index.get(key); } for (const entry of registry) { index.set(entry.name, entry); } registry.forEach(() => {});",
    );
    let multiple_builders = parse(
        "const alpha = { name: 'alpha' } as const; const registry = [alpha] as const; const first = new Map(); const second = new Map(); function lookup(key: string) { return first.get(key) ?? second.get(key); } for (const entry of registry) { first.set(entry.name, entry); } for (const entry of registry) { second.set(entry.name, entry); }",
    );
    let mutated_entry = parse(
        "const alpha = { name: 'alpha' } as const; Object.assign(alpha, { name: 'other' }); const registry = [alpha] as const;",
    );
    let duplicate = parse(
        "const first = { name: 'same' } as const; const second = { name: 'same' } as const; const registry = [first, second] as const;",
    );

    assert!(!has(&getter.registries, "registry"));
    assert_eq!(mutation.indexed_registry_dependencies.len(), 0);
    assert_eq!(extra_enumeration.indexed_registry_dependencies.len(), 0);
    assert_eq!(multiple_builders.indexed_registry_dependencies.len(), 0);
    assert!(!has(&mutated_entry.registries, "registry"));
    assert!(!has(&duplicate.registries, "registry"));
}

#[test]
fn type_position_does_not_create_runtime_module_request() {
    let module = parse("import { Shape } from './types'; export type Result = Shape;");

    assert_eq!(module.module_requests.len(), 0);
}

#[test]
fn narrows_static_namespace_members() {
    let module =
        parse("import * as values from './values'; export const result = values.used;");

    match &at(&module.imports, "values").imported {
        ImportedName::Namespace { members: Some(members) } => {
            assert_eq!(names(members), vec!["used".to_string()]);
        }
        _ => panic!("expected a namespace with known members"),
    }
}

#[test]
fn dynamic_namespace_access_uses_all_exports() {
    let module =
        parse("import * as values from './values'; export const result = values[name];");

    assert!(matches!(
        &at(&module.imports, "values").imported,
        ImportedName::Namespace { members: None }
    ));
}

#[test]
fn module_initialization_depends_on_top_level_references() {
    let module = parse(
        "const handler = () => 'ok'; export const router = {}; router.handler = handler;",
    );

    assert!(holds(&symbol(&module, MODULE_INIT).dependencies, "handler"));
}

#[test]
fn records_dynamic_import_and_commonjs_consumers() {
    let module = parse(
        "export async function load() { return import('./lazy'); } export const legacy = require('./legacy');",
    );

    assert!(module
        .runtime_loads
        .iter()
        .any(|load| load.source == "./lazy" && holds(&load.consumers, "load")));
    assert!(module
        .runtime_loads
        .iter()
        .any(|load| load.source == "./legacy" && holds(&load.consumers, "legacy")));
    assert!(!holds(&module.module_requests, "./lazy"));
}

#[test]
fn unsupported_and_broken_sources_are_errors() {
    assert!(matches!(
        parse_module(&FilePath::parse("style.css"), "body {}"),
        Err(ParseError::Unsupported { .. })
    ));
    assert!(matches!(
        parse_module(&FilePath::parse("broken.ts"), "export const = ;"),
        Err(ParseError::Syntax { .. })
    ));
}

#[test]
fn contradicting_declarations_are_errors() {
    let parsed = parse_module(&FilePath::parse("twice.ts"), "let a = 1; let a = 2;");
    match parsed {
        Ok(_) => panic!("expected an error"),
        Err(error) => assert!(error.message().contains("twice.ts: ")),
    }
}

#[test]
fn locations_count_lines_and_columns_from_one() {
    let module = parse("import { a } from './a';\n\n  export const b = a;\n");

    let place = at(&symbol(&module, "b").dependency_locations, "a");
    assert_eq!((place.line, place.column), (3, 20));
}

#[test]
fn unresolved_dynamic_imports_are_kept_as_written() {
    let module = parse("export const load = (name: string) => import(name);");

    assert_eq!(module.unresolved_dynamic_imports, vec!["name"]);
    assert_eq!(module.runtime_loads.len(), 0);
}

#[test]
fn type_exports_and_star_exports_are_kept_apart() {
    let module = parse(
        "import type { Shape } from './shape'; export type { Shape }; export type { Other } from './other'; export type * from './all'; export interface Local { shape: Shape }",
    );

    assert_eq!(module.star_exports.len(), 0);
    assert_eq!(module.type_star_exports, vec!["./all"]);
    assert_eq!(module.re_exports.len(), 0);
    assert!(module.type_re_exports.iter().any(|passed| passed.exported == "Other"));
    assert_eq!(at(&module.type_local_exports, "Local"), "Local");
    assert!(has(&module.type_imports, "Shape"));
    assert!(holds(&symbol(&module, "Local").type_dependencies, "Shape"));
}
