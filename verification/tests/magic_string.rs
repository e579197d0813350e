//! What `check_magic_strings` reports.

use spaghetti::checks::ast_per_file::check_magic_strings;
use spaghetti::models::Issue;

fn issues_for(source: &str) -> Vec<Issue> {
    let module = rustpython_parser::parse(source, rustpython_parser::Mode::Module, "f.py")
        .expect("test source must parse");
    check_magic_strings(&module, source, "f.py", "pkg")
}

#[test]
fn flags_repeated_comparison() {
    let issues = issues_for(
        "def f(status):\n    if status == 'pending':\n        return 1\n\
         def g(status):\n    if status == 'pending':\n        return 2\n",
    );
    assert_eq!(issues.len(), 2);
    assert!(issues.iter().all(|i| i.rule == "magic-string"));
    assert!(issues.iter().all(|i| i.message.contains("'pending'")));
    assert!(issues.iter().all(|i| i.message.contains("2 times")));
}

#[test]
fn allows_single_comparison() {
    let issues = issues_for("def f(status):\n    if status == 'pending':\n        return 1\n");
    assert!(issues.is_empty());
}

#[test]
fn allows_empty_string() {
    let issues = issues_for(
        "def f(x):\n    if x == '':\n        return 1\n    if x == '':\n        return 2\n",
    );
    assert!(issues.is_empty());
}

#[test]
fn ignores_literal_to_literal_comparison() {
    let issues = issues_for(
        "def f():\n    if 'a' == 'a':\n        pass\n    if 'a' == 'a':\n        pass\n",
    );
    assert!(issues.is_empty());
}

#[test]
fn ignores_membership_checks() {
    let issues = issues_for(
        "def f(path):\n    if 'xx' in path:\n        pass\n    if 'xx' in path:\n        pass\n",
    );
    assert!(issues.is_empty());
}

#[test]
fn flags_literal_on_left_side() {
    let issues = issues_for(
        "def f(status):\n    if 'pending' == status:\n        pass\n\
         \n    if status == 'pending':\n        pass\n",
    );
    assert_eq!(issues.len(), 2);
}

#[test]
fn allows_single_char_string() {
    let issues = issues_for(
        "def f(x):\n    if x == '_':\n        pass\n    if x == '_':\n        pass\n",
    );
    assert!(issues.is_empty());
}

#[test]
fn ignores_ast_identifier_field_access() {
    let issues = issues_for(
        "def f(kw, t, target):\n    if kw.arg == 'allow_pickle':\n        pass\n\
         \n    if t.id == 'allow_pickle':\n        pass\n\
         \n    if target.attr == 'allow_pickle':\n        pass\n",
    );
    assert!(issues.is_empty());
}

#[test]
fn ignores_dunder_name() {
    let issues = issues_for(
        "def f(name):\n    if name == '__init__':\n        pass\n\
         \n    if name != '__init__':\n        pass\n",
    );
    assert!(issues.is_empty());
}

#[test]
fn still_flags_short_dunder_looking_string() {
    // '____' has no content between the underscores — not a real
    // dunder name, just four underscores — so it should still be
    // flagged as an ordinary repeated string comparison.
    let issues = issues_for(
        "def f(x):\n    if x == '____':\n        pass\n    if x == '____':\n        pass\n",
    );
    assert_eq!(issues.len(), 2);
}
