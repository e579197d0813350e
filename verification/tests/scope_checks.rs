//! The checks of module-level state and of chains.

use spaghetti::checks::ast_per_file::{
    check_global_mutations, check_god_module, check_message_chains, check_scope_mutations,
};
use spaghetti::models::{Issue, Severity};

fn module(source: &str) -> rustpython_ast::Mod {
    rustpython_parser::parse(source, rustpython_parser::Mode::Module, "f.py")
        .expect("test source must parse")
}

fn shown(issues: &[Issue]) -> Vec<(usize, &str)> {
    issues.iter().map(|i| (i.line, i.message.as_str())).collect()
}

#[test]
fn mutable_globals_are_reported() {
    let source = "A = []\n_B = {}\nC = D = {1}\nE = ()\nif x:\n    F = []\n";
    let issues = check_global_mutations(&module(source), source, "f.py", "pkg");
    assert_eq!(issues.iter().map(|i| i.line).collect::<Vec<_>>(), [1, 3, 3]);
    assert_eq!(
        issues[2].message,
        "Module-level mutable 'D' — consider encapsulating it in a class and injecting it where needed instead of reaching for module-level global state (Dependency Injection)"
    );
}

#[test]
fn outer_scopes_are_left_alone() {
    let source = "def f():\n    global a, b\n    c = 1\n    if x:\n        b += 1\n    a = 2\n\ndef g():\n    n = 1\n    def h():\n        nonlocal n\n        n = 2\n\ndef k():\n    global z\n    print(z)\n";
    let issues = check_scope_mutations(&module(source), source, "f.py", "pkg");
    assert_eq!(
        shown(&issues),
        [
            (5, "f() mutates outer-scope variable 'b' via global — shared mutable state makes control flow hard to trace"),
            (12, "h() mutates outer-scope variable 'n' via nonlocal — shared mutable state makes control flow hard to trace"),
        ]
    );
    assert_eq!(issues[0].severity, Severity::Info);
}

#[test]
fn public_symbols_are_counted() {
    let mut source = String::new();
    for i in 0..8 {
        source.push_str(&format!("class C{i}: pass\n"));
    }
    for i in 0..7 {
        source.push_str(&format!("def f{i}(): pass\n"));
    }
    source.push_str("def _g(): pass\nclass _D: pass\n");
    assert!(check_god_module(&module(&source), &source, "f.py", "pkg").is_empty());
    source.push_str("async def h(): pass\n");
    let issues = check_god_module(&module(&source), &source, "f.py", "pkg");
    assert_eq!(
        shown(&issues),
        [(1, "Module exposes 16 public symbols (8 classes, 8 functions) — consider splitting")]
    );
}

#[test]
fn one_chain_per_statement_is_reported() {
    let source = "a.b.c.d\na.b.c.d.e\nx = f(p.q.r.s.t, u.v.w.x.y.z)\ndef g():\n    h(a.b().c().d().e())\n";
    let issues = check_message_chains(&module(source), source, "f.py", "pkg");
    assert_eq!(
        shown(&issues),
        [
            (2, "method/attribute chain depth 4 exceeds 3 — split into intermediate variables"),
            (3, "method/attribute chain depth 4 exceeds 3 — split into intermediate variables"),
            (5, "method/attribute chain depth 4 exceeds 3 — split into intermediate variables"),
        ]
    );
}

#[test]
fn the_chain_nearest_to_the_statement_is_reported() {
    let source = "x = [f(a.b.c.d.e),\n     p.q.r.s.t.u]\n";
    let issues = check_message_chains(&module(source), source, "f.py", "pkg");
    assert_eq!(
        shown(&issues),
        [(2, "method/attribute chain depth 5 exceeds 3 — split into intermediate variables")]
    );
}
