//! The checks of a file's text, and the inline markers.

use spaghetti::checks::text_per_file::{check_long_file, check_todo_markers};
use spaghetti::models::{Issue, Severity};
use spaghetti::suppression::is_suppressed;

#[test]
fn long_files_are_reported() {
    assert!(check_long_file(&"x\n".repeat(400), "f.py", "pkg").is_empty());
    let issues = check_long_file(&"x\n".repeat(401), "f.py", "pkg");
    assert_eq!(issues.len(), 1);
    assert_eq!((issues[0].line, issues[0].rule), (1, "long-file"));
    assert_eq!(issues[0].message, "File is 401 lines (max 400)");
}

#[test]
fn todo_markers_are_quoted() {
    let source = "a = 1\n    b = 2  # later: TODO fix\nTODO = 3\n# TODOS\r\n# fixme FIXME!\n";
    let issues = check_todo_markers(source, "f.py", "pkg");
    let shown: Vec<(usize, &str)> =
        issues.iter().map(|i| (i.line, i.message.as_str())).collect();
    assert_eq!(
        shown,
        [
            (2, "TODO marker: b = 2  # later: TODO fix"),
            (5, "FIXME marker: # fixme FIXME!"),
        ]
    );
}

#[test]
fn long_todo_lines_are_cut() {
    let ninety = format!("# TODO {}", "é".repeat(83));
    assert_eq!(
        check_todo_markers(&ninety, "f.py", "pkg")[0].message,
        format!("TODO marker: {ninety}")
    );
    let longer = format!("# TODO {}", "é".repeat(84));
    assert_eq!(
        check_todo_markers(&longer, "f.py", "pkg")[0].message,
        format!("TODO marker: # TODO {}...", "é".repeat(80))
    );
}

fn issue_at(line: usize, rule: &'static str) -> Issue {
    Issue {
        file: "f.py".to_string(),
        line,
        severity: Severity::Info,
        rule,
        message: String::new(),
        package: "pkg".to_string(),
        reason: None,
    }
}

fn marker(source: &[&str], line: usize, rule: &'static str) -> Option<(Vec<String>, Option<String>)> {
    let lines: Vec<String> = source.iter().map(|l| l.to_string()).collect();
    is_suppressed(&issue_at(line, rule), &lines).map(|s| (s.rules, s.reason))
}

#[test]
fn a_bare_marker_covers_every_rule() {
    let source = ["x = 1  # spaghetti-ignore"];
    assert_eq!(marker(&source, 1, "any-rule"), Some((vec![], None)));
    let empty = ["x = 1  # spaghetti-ignore[ ]:  "];
    assert_eq!(marker(&empty, 1, "any-rule"), Some((vec![], None)));
}

#[test]
fn listed_rules_and_the_reason_are_read() {
    let source = ["#spaghetti-ignore[a, b ,,a]: because of c "];
    let found = marker(&source, 1, "b");
    assert_eq!(
        found,
        Some((vec!["a".to_string(), "b".to_string()], Some("because of c".to_string())))
    );
    assert_eq!(marker(&source, 1, "c"), None);
}

#[test]
fn the_line_above_counts_too() {
    let source = ["# spaghetti-ignore: up", "x = 1", "y = 2"];
    assert!(marker(&source, 1, "r").is_some());
    assert_eq!(marker(&source, 2, "r"), Some((vec![], Some("up".to_string()))));
    assert_eq!(marker(&source, 3, "r"), None);
    assert_eq!(marker(&source, 9, "r"), None);
    assert_eq!(marker(&source, 0, "r"), None);
}

#[test]
fn the_own_line_decides_before_the_line_above() {
    let source = ["# spaghetti-ignore", "x = 1  # spaghetti-ignore[other]"];
    assert_eq!(marker(&source, 2, "r"), None);
}
