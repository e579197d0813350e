//! Scanning packages.

use spaghetti::models::{Ratio, ScanConfig, ScanResult, Severity};
use spaghetti::scanner::{is_scanned_path, report_file, scan_package, SourceFile};

fn config() -> ScanConfig {
    ScanConfig {
        exclude: vec![],
        min_duplicate_lines: 5,
        twin_similarity: Ratio { numerator: 3, denominator: 5 },
        recursive: true,
    }
}

fn file(path: &str, source: &str) -> SourceFile {
    SourceFile { path: path.to_string(), source: source.to_string() }
}

const BARE: &str = "def f():\n    try:\n        pass\n    except:\n        pass\n";

fn rules(result: &ScanResult) -> Vec<(&str, usize, &str)> {
    result
        .issues
        .iter()
        .map(|i| (i.file.as_str(), i.line, i.rule))
        .collect()
}

#[test]
fn non_recursive_ignores_subdirectories() {
    let files = vec![
        file("/tmp/root/loose.py", BARE),
        file(
            "/tmp/root/sub/mod.py",
            "def g():\n    try:\n        pass\n    except:\n        pass\n",
        ),
    ];
    let mut config = config();
    config.recursive = false;
    let result = scan_package("root", "/tmp/root", &files, &config);
    assert_eq!(result.files_scanned, 1);
    assert!(result
        .issues
        .iter()
        .filter(|i| i.rule == "bare-except")
        .all(|i| i.file == "/tmp/root/loose.py"));
}

#[test]
fn scans_real_existing_package_successfully() {
    let files = vec![file("fake_pkg/messy.py", BARE)];
    let result = scan_package("fake_pkg", "fake_pkg", &files, &config());
    assert_eq!(spaghetti::cli::exit_code(&result), 1);
    assert!(result.issues.iter().any(|i| i.rule == "bare-except"));
}

#[test]
fn suppressed_issue_reason_appears_in_json_output() {
    let source = "def f():\n    try:\n        pass\n    except:  # spaghetti-ignore[bare-except]: intentional catch-all\n        pass\n";
    let files = vec![file("fake_pkg/messy.py", source)];
    let result = scan_package("fake_pkg", "fake_pkg", &files, &config());
    assert!(!result.issues.iter().any(|i| i.rule == "bare-except"));
    assert_eq!(result.ignored.len(), 1);
    assert_eq!(result.suppressed, 1);
    assert_eq!(result.ignored[0].rule, "bare-except");
    assert_eq!(result.ignored[0].reason.as_deref(), Some("intentional catch-all"));
}

#[test]
fn only_python_files_of_the_project_are_scanned() {
    let mut config = config();
    config.exclude = vec!["/tests/".to_string(), "gen".to_string()];
    let scanned = |path: &str| is_scanned_path("/w/p", path, &config);
    assert!(scanned("/w/p/a.py"));
    assert!(scanned("/w/p/b/c/a.py"));
    assert!(!scanned("/w/p/a.pyc"));
    assert!(!scanned("/w/p/py"));
    assert!(!scanned("/w/p/.py"));
    assert!(!scanned("/w/p/__pycache__/a.py"));
    assert!(!scanned("/w/p/tests/a.py"));
    assert!(!scanned("/w/p/generated.py"));
}

#[test]
fn files_lines_and_functions_are_counted() {
    let files = vec![
        file("/w/p/a.py", "x: int = 1\n\ndef f() -> int:\n    return x\n"),
        file("/w/p/b.txt", "def g(): pass\n"),
        file("/w/p/c.py", "def h(:\n"),
    ];
    let result = scan_package("p", "/w/p", &files, &config());
    assert_eq!(
        (result.files_scanned, result.total_lines, result.functions_scanned),
        (2, 5, 1)
    );
    assert_eq!(rules(&result), [("/w/p/c.py", 1, "syntax-error")]);
    assert_eq!(result.issues[0].severity, Severity::Error);
    assert!(result.issues[0]
        .message
        .starts_with("Failed to parse file — syntax error: "));
}

#[test]
fn a_file_that_does_not_parse_is_reported() {
    let issues = report_file(&Err("what is wrong".to_string()), "# TODO x\n", "a.py", "p", "/w");
    let shown: Vec<(&str, &str)> =
        issues.iter().map(|i| (i.rule, i.message.as_str())).collect();
    assert_eq!(
        shown,
        [
            ("todo-marker", "TODO marker: # TODO x"),
            ("syntax-error", "Failed to parse file — syntax error: what is wrong"),
        ]
    );
}

#[test]
fn findings_come_check_by_check() {
    let source = "import os\nfrom a import *\n\ndef f(x=[]):\n    return 42  # TODO\n";
    let files = vec![file("/w/p/a.py", source)];
    let result = scan_package("p", "/w/p", &files, &config());
    assert_eq!(
        rules(&result),
        [
            ("/w/p/a.py", 5, "todo-marker"),
            ("/w/p/a.py", 4, "missing-return-type"),
            ("/w/p/a.py", 4, "missing-param-type"),
            ("/w/p/a.py", 4, "mutable-default"),
            ("/w/p/a.py", 1, "unused-import"),
            ("/w/p/a.py", 2, "star-import"),
            ("/w/p/a.py", 5, "magic-number"),
        ]
    );
}

#[test]
fn package_findings_obey_the_markers_of_their_file() {
    let files = vec![
        file("/w/boti/a.py", "import boti.b  # spaghetti-ignore[import-cycle]: known\nboti\n"),
        file("/w/boti/b.py", "import boti.a\nboti\n"),
    ];
    let result = scan_package("boti", "/w/boti", &files, &config());
    assert!(result.issues.is_empty());
    assert_eq!(result.ignored.len(), 1);
    assert_eq!(result.ignored[0].rule, "import-cycle");
    assert_eq!(result.ignored[0].reason.as_deref(), Some("known"));
}

#[test]
fn each_finding_goes_to_one_list() {
    let marked = "def g():\n    try:\n        pass\n    except:  # spaghetti-ignore[bare-except]: known\n        pass\n";
    let plain = scan_package(
        "p",
        "/w/p",
        &vec![
            file("/w/p/a.py", BARE),
            file("/w/p/b.py", &marked.replace("spaghetti-ignore", "see")),
        ],
        &config(),
    );
    let files = vec![file("/w/p/a.py", BARE), file("/w/p/b.py", marked)];
    let result = scan_package("p", "/w/p", &files, &config());
    assert_eq!(plain.ignored.len(), 0);
    assert_eq!(result.issues.len() + result.ignored.len(), plain.issues.len());
    assert_eq!(result.suppressed, 1);
    assert!(result.issues.iter().all(|i| i.package == "p" && i.reason.is_none()));
    let ignored: Vec<(&str, &str, usize, &str, Option<&str>)> = result
        .ignored
        .iter()
        .map(|i| (i.package.as_str(), i.file.as_str(), i.line, i.rule, i.reason.as_deref()))
        .collect();
    assert_eq!(ignored, [("p", "/w/p/b.py", 4, "bare-except", Some("known"))]);
    assert!(!rules(&result).contains(&("/w/p/b.py", 4, "bare-except")));
    assert!(rules(&result).contains(&("/w/p/a.py", 4, "bare-except")));
    assert!(rules(&plain).contains(&("/w/p/b.py", 4, "bare-except")));
}

#[test]
fn twins_and_duplicates_are_found_across_files() {
    let body = "    a: int = 0\n    b: int = a\n    c: int = b\n    return c\n";
    let files = vec![
        file("/w/p/a.py", &format!("def f() -> int:\n{body}\nasync def f_async() -> int:\n{body}")),
        file("/w/p/b.py", &format!("def g() -> int:\n{body}")),
    ];
    let result = scan_package("p", "/w/p", &files, &config());
    let found = rules(&result);
    assert!(found.contains(&("/w/p/a.py", 1, "duplicate-function-body")));
    assert!(found.contains(&("/w/p/a.py", 1, "sync-async-duplication")));
    assert_eq!(found.len(), 2);
}

#[test]
fn scanning_nothing_finds_nothing() {
    let result = scan_package("p", "/w/p", &vec![], &config());
    assert_eq!(result.files_scanned, 0);
    assert!(result.issues.is_empty() && result.ignored.is_empty());
    assert_eq!(spaghetti::cli::exit_code(&result), 0);
}
