//! The checks of control flow.

use spaghetti::checks::ast_per_file::{
    check_bare_except, check_dead_code, check_duplicate_branches, check_swallowed_exceptions,
};
use spaghetti::models::{Issue, Severity};

fn module(source: &str) -> rustpython_ast::Mod {
    rustpython_parser::parse(source, rustpython_parser::Mode::Module, "f.py")
        .expect("test source must parse")
}

fn lines(issues: &[Issue]) -> Vec<usize> {
    issues.iter().map(|i| i.line).collect()
}

#[test]
fn bare_handlers_are_reported() {
    let source = "def f():\n    try:\n        pass\n    except ValueError:\n        raise\n    except:\n        try:\n            pass\n        except:\n            raise\n";
    let issues = check_bare_except(&module(source), source, "f.py", "pkg");
    assert_eq!(lines(&issues), [6, 9]);
    assert_eq!(issues[0].rule, "bare-except");
    assert_eq!(issues[0].severity, Severity::Warning);
    assert_eq!(
        issues[0].message,
        "Bare except clause — catch specific exceptions instead"
    );
}

#[test]
fn swallowed_exceptions_are_named() {
    let source = "try:\n    a()\nexcept KeyError:\n    pass\ntry:\n    a()\nexcept (KeyError, ValueError):\n    ...\ntry:\n    a()\nexcept OSError:\n    log()\ntry:\n    a()\nexcept:\n    pass\n";
    let issues = check_swallowed_exceptions(&module(source), source, "f.py", "pkg");
    assert_eq!(lines(&issues), [3, 7, 15]);
    assert_eq!(
        issues[0].message,
        "except KeyError: silently discards the error with no log/reraise"
    );
    assert_eq!(
        issues[1].message,
        "except Exception: silently discards the error with no log/reraise"
    );
    assert_eq!(issues[2].message, issues[1].message);
}

#[test]
fn unreachable_statements_are_reported() {
    let source = "def f(x):\n    if x:\n        return 1\n        a = 2\n    else:\n        raise E\n        b = 3\n    try:\n        c()\n    except E:\n        return 4\n        d = 5\n    return 6\n    e = 7\n    g = 8\n";
    let issues = check_dead_code(&module(source), source, "f.py", "pkg");
    assert_eq!(lines(&issues), [14, 15, 4, 7, 12]);
    assert_eq!(issues[0].rule, "dead-code");
    assert_eq!(
        issues[0].message,
        "statement is unreachable — previous line always terminates"
    );
}

#[test]
fn dead_code_is_sought_one_level_deep() {
    let source = "def f(x):\n    while x:\n        if x:\n            break\n            a = 1\n";
    assert!(check_dead_code(&module(source), source, "f.py", "pkg").is_empty());
}

#[test]
fn identical_branches_are_reported() {
    let source = "if x:\n    a = 1\n    b(2)\nelse:\n    a = 1\n    b(2)\nif x:\n    a = 1\nelse:\n    a = 2\nif x:\n    a = 1\nelif y:\n    a = 1\nelse:\n    a = 3\n";
    let issues = check_duplicate_branches(&module(source), source, "f.py", "pkg");
    assert_eq!(lines(&issues), [1]);
    assert_eq!(
        issues[0].message,
        "if/else branches are structurally identical — the condition has no effect"
    );
    let elif = "if x:\n    a = 1\nelif y:\n    a = 2\nelse:\n    a = 2\n";
    let issues = check_duplicate_branches(&module(elif), elif, "f.py", "pkg");
    assert_eq!(lines(&issues), [3]);
}
