//! What `check_missing_else` reports.

use spaghetti::checks::ast_per_file::check_missing_else;
use spaghetti::models::Issue;

fn issues_for(source: &str) -> Vec<Issue> {
    let module = rustpython_parser::parse(source, rustpython_parser::Mode::Module, "f.py")
        .expect("test source must parse");
    check_missing_else(&module, source, "f.py", "pkg")
}

#[test]
fn flags_nontrivial_if() {
    let issues = issues_for("def f():\n    if x:\n        a = 1\n        b = 2\n");
    assert_eq!(issues.len(), 1);
    assert_eq!(issues[0].rule, "missing-else");
}

#[test]
fn allows_if_else() {
    let issues = issues_for(
        "def f():\n    if x:\n        a = 1\n        b = 2\n    else:\n        pass\n",
    );
    assert!(issues.is_empty());
}

#[test]
fn allows_single_statement_if() {
    let issues = issues_for("def f():\n    if x:\n        a = 1\n");
    assert!(issues.is_empty());
}

#[test]
fn allows_if_elif() {
    let issues = issues_for(
        "def f():\n    if x:\n        a = 1\n        b = 2\n    elif y:\n        pass\n",
    );
    assert!(issues.is_empty());
}

#[test]
fn allows_guard_clause_return() {
    let issues =
        issues_for("def f():\n    if x:\n        a = 1\n        return\n    return a\n");
    assert!(issues.is_empty());
}

#[test]
fn allows_guard_clause_raise() {
    let issues =
        issues_for("def f():\n    if x:\n        a = 1\n        raise ValueError(a)\n");
    assert!(issues.is_empty());
}

#[test]
fn allows_loop_skip_continue() {
    let issues = issues_for(
        "def f():\n    for x in y:\n        if x in seen:\n            a = 1\n            continue\n",
    );
    assert!(issues.is_empty());
}

#[test]
fn allows_loop_skip_break() {
    let issues = issues_for(
        "def f():\n    for x in y:\n        if x is done:\n            a = 1\n            break\n",
    );
    assert!(issues.is_empty());
}

#[test]
fn still_flags_non_terminated_if() {
    // Sanity check: the terminator narrowing must not swallow genuine
    // hits — a 2+ statement if with no else/elif/terminator is flagged.
    let issues =
        issues_for("def f():\n    if x:\n        a = 1\n        b = 2\n    return a + b\n");
    assert_eq!(issues.len(), 1);
}

#[test]
fn allows_guard_then_attribute_assignment() {
    // Lazy-init-then-cache idiom: mutating self.x (already-existing
    // state) needs no negative path — "leave it as is" is already the
    // default.
    let issues = issues_for(
        "def f():\n    if x is None:\n        x = compute()\n        self.x = x\n    return self.x\n",
    );
    assert!(issues.is_empty());
}

#[test]
fn allows_guard_then_subscript_assignment() {
    let issues = issues_for(
        "def f():\n    if endpoint:\n        kwargs['a'] = 1\n        kwargs['b'] = 2\n    return kwargs\n",
    );
    assert!(issues.is_empty());
}

#[test]
fn allows_guard_then_augassign_attribute() {
    let issues = issues_for("def f():\n    if x:\n        a = 1\n        self.count += a\n");
    assert!(issues.is_empty());
}

#[test]
fn allows_guard_then_yield() {
    let issues = issues_for(
        "def f():\n    for c in items:\n        if c not in seen:\n            seen.add(c)\n            yield c\n",
    );
    assert!(issues.is_empty());
}

#[test]
fn allows_guard_then_yield_from() {
    let issues = issues_for("def f():\n    if x:\n        a = 1\n        yield from a\n");
    assert!(issues.is_empty());
}

#[test]
fn still_flags_mixed_target_assignment() {
    // Sanity check: a multi-target assignment must be *all* attribute/
    // subscript targets to qualify — `a = self.x = 1` still introduces
    // a fresh local (`a`), so it stays flagged.
    let issues = issues_for("def f():\n    if x:\n        a = 1\n        a = self.x = 2\n");
    assert_eq!(issues.len(), 1);
}
