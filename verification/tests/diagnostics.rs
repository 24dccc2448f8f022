use monoripple::collections::{KeyMap, KeySet};
use monoripple::diagnostics::{cycles, Diagnostic, Severity};
use monoripple::order::{Key, Rank};
use monoripple::sorting::sort;

fn graph(edges: &[(&str, &[&str])]) -> KeyMap<String, KeySet<String>> {
    let mut out = KeyMap::new();
    for (from, to) in edges {
        let mut set = KeySet::new();
        for name in to.iter() {
            set.insert(name.to_string());
        }
        out.insert(from.to_string(), set);
    }
    out
}

#[test]
fn finds_strongly_connected_components() {
    let graph = graph(&[("a", &["b"]), ("b", &["a", "c"]), ("c", &[])]);

    assert_eq!(cycles(&graph), vec![vec!["a".to_string(), "b".to_string()]]);
}

#[test]
fn cycles_share_no_member_and_come_in_order() {
    let graph = graph(&[
        ("d", &["c"]),
        ("c", &["d", "a"]),
        ("a", &["b"]),
        ("b", &["a"]),
        ("e", &["e"]),
    ]);

    assert_eq!(
        cycles(&graph),
        vec![
            vec!["a".to_string(), "b".to_string()],
            vec!["c".to_string(), "d".to_string()],
            vec!["e".to_string()],
        ]
    );
}

#[test]
fn a_graph_without_cycles_has_none() {
    let graph = graph(&[("a", &["b", "c"]), ("b", &["c"]), ("c", &[])]);

    assert!(cycles(&graph).is_empty());
}

fn finding(code: &'static str, severity: Severity, message: &str) -> Diagnostic {
    Diagnostic { code, severity, message: message.to_string(), path: None, members: vec![] }
}

#[test]
fn findings_are_sorted_by_code_then_severity_then_message() {
    let sorted = sort(vec![
        finding("B", Severity::Info, "one"),
        finding("A", Severity::Warning, "two"),
        finding("A", Severity::Info, "two"),
        finding("A", Severity::Info, "one"),
    ]);
    let shown: Vec<(&str, Severity, &str)> =
        sorted.iter().map(|found| (found.code, found.severity, found.message.as_str())).collect();

    assert_eq!(
        shown,
        vec![
            ("A", Severity::Info, "one"),
            ("A", Severity::Info, "two"),
            ("A", Severity::Warning, "two"),
            ("B", Severity::Info, "one"),
        ]
    );
    assert_eq!(Severity::Warning.rank(&Severity::Error), Rank::Before);
}
