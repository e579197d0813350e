//! What follows from the outcomes of outside calls.

use spaghetti::checks::duplicates::{report_duplicates, Body};
use spaghetti::checks::literals::needs_no_name;
use spaghetti::config::{nearest_workspace, ProjectDir};
use spaghetti::suppression::{pick_marker, read_marker, Suppression};

fn marker(rules: &[&str], reason: Option<&str>) -> Suppression {
    Suppression {
        rules: rules.iter().map(|r| r.to_string()).collect(),
        reason: reason.map(|r| r.to_string()),
    }
}

#[test]
fn markers_list_rules_and_give_reasons() {
    let some = |t: &str| Some(t.to_string());
    let m = read_marker(&vec![some("# ..."), some(" b, a ,,b"), some("  why  ")]);
    assert_eq!(m.rules, ["b", "a"]);
    assert_eq!(m.reason.as_deref(), Some("why"));
    let m = read_marker(&vec![some("# ..."), some("  "), some(" ")]);
    assert!(m.rules.is_empty() && m.reason.is_none());
    let m = read_marker(&vec![some("# ..."), None, None]);
    assert!(m.rules.is_empty() && m.reason.is_none());
}

#[test]
fn the_nearest_marker_decides() {
    let reason = |m: Option<Suppression>| m.map(|m| m.reason.unwrap());
    let own = || Some(marker(&["a"], Some("own")));
    let above = || Some(marker(&[], Some("above")));
    assert_eq!(reason(pick_marker("a", own(), above())).as_deref(), Some("own"));
    assert!(pick_marker("b", own(), above()).is_none());
    assert_eq!(reason(pick_marker("b", None, above())).as_deref(), Some("above"));
    assert!(pick_marker("b", None, own()).is_none());
    assert!(pick_marker("b", None, None).is_none());
}

#[test]
fn the_first_workspace_counts() {
    let dir = |path: &str| ProjectDir { path: path.to_string(), pyproject: None };
    let dirs = vec![dir("/a/b"), dir("/a"), dir("/")];
    assert_eq!(nearest_workspace(&dirs, &vec![false, true, true]), Some("/a"));
    assert_eq!(nearest_workspace(&dirs, &vec![false, false, false]), None);
}

#[test]
fn equal_bodies_are_reported_together() {
    let body = |path: &'static str, name: &str, line: usize, key: &str| Body {
        path,
        name: name.to_string(),
        line,
        key: key.to_string(),
    };
    let all = vec![
        body("b.py", "f", 9, "x"),
        body("b.py", "g", 2, "y"),
        body("a.py", "h", 5, "x"),
        body("b.py", "i", 4, "z"),
        body("b.py", "j", 1, "y"),
        body("b.py", "k", 3, "x"),
    ];
    let found: Vec<(String, usize, String)> = report_duplicates("p", &all)
        .into_iter()
        .map(|i| (i.file, i.line, i.message))
        .collect();
    assert_eq!(
        found,
        [
            (
                "a.py".to_string(),
                5,
                "Identical body in 3 places: a.py:5 (h), b.py:3 (k), b.py:9 (f)".to_string()
            ),
            (
                "b.py".to_string(),
                1,
                "Identical body in 2 places: b.py:1 (j), b.py:2 (g)".to_string()
            ),
        ]
    );
}

#[test]
fn ones_and_zeros_need_no_name() {
    for text in ["-1", "0", "1", "-1.0", "-0.0", "0.0", "1.0"] {
        assert!(needs_no_name(text));
    }
    for text in ["2", "10", "0.5", "1.00", ""] {
        assert!(!needs_no_name(text));
    }
}
