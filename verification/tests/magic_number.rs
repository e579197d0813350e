//! What `check_magic_numbers` reports.

use spaghetti::checks::ast_per_file::check_magic_numbers;
use spaghetti::models::Issue;

fn issues_for(source: &str) -> Vec<Issue> {
    let module = rustpython_parser::parse(source, rustpython_parser::Mode::Module, "f.py")
        .expect("test source must parse");
    check_magic_numbers(&module, source, "f.py", "pkg")
}

#[test]
fn flags_literal() {
    let issues = issues_for("def f():\n    x = 42\n");
    assert_eq!(issues.len(), 1);
    assert_eq!(issues[0].rule, "magic-number");
    assert!(issues[0].message.contains("42"));
}

#[test]
fn allows_zero_one_minus_one() {
    let issues = issues_for("def f():\n    a = 0\n    b = 1\n    c = -1\n");
    assert!(issues.is_empty());
}

#[test]
fn skips_init() {
    let issues = issues_for("class C:\n    def __init__(self):\n        self.x = 42\n");
    assert!(issues.is_empty());
}

#[test]
fn flags_float() {
    let issues = issues_for("def f():\n    ratio = 0.75\n");
    assert_eq!(issues.len(), 1);
    assert_eq!(issues[0].rule, "magic-number");
}

#[test]
fn skips_keyword_argument() {
    let issues = issues_for("def f():\n    warnings.warn('x', UserWarning, stacklevel=2)\n");
    assert!(issues.is_empty());
}

#[test]
fn skips_default_parameter_value() {
    let issues =
        issues_for("def f(max_attempts: int = 3, base_delay: float = 0.5):\n    pass\n");
    assert!(issues.is_empty());
}

#[test]
fn still_flags_positional_argument() {
    let issues = issues_for("def f():\n    do_thing(42)\n");
    assert_eq!(issues.len(), 1);
    assert!(issues[0].message.contains("42"));
}

#[test]
fn still_flags_magic_number_nested_inside_keyword_value() {
    let issues = issues_for("def f():\n    do_thing(timeout=compute(42))\n");
    assert_eq!(issues.len(), 1);
    assert!(issues[0].message.contains("42"));
}
