//! The checks of functions.

use spaghetti::checks::ast_per_file::{
    check_boolean_flag_params, check_complexity, check_deep_nesting, check_excessive_params,
    check_excessive_returns, check_long_functions, check_missing_types, check_mutable_defaults,
    count_functions,
};
use spaghetti::models::{Issue, Severity};

fn module(source: &str) -> rustpython_ast::Mod {
    rustpython_parser::parse(source, rustpython_parser::Mode::Module, "f.py")
        .expect("test source must parse")
}

fn shown(issues: &[Issue]) -> Vec<(usize, &str, &str)> {
    issues.iter().map(|i| (i.line, i.rule, i.message.as_str())).collect()
}

#[test]
fn functions_are_counted_at_every_level() {
    let source = "def a():\n    def b():\n        pass\n\nclass C:\n    async def d(self):\n        pass\n\nif x:\n    def e():\n        pass\nmatch x:\n    case 1:\n        def g():\n            pass\n";
    assert_eq!(count_functions(&module(source)), 5);
}

#[test]
fn long_functions_are_reported() {
    let at_limit = format!("x = 1\n\n\ndef f():\n{}", "    a = 1\n".repeat(49));
    assert!(check_long_functions(&module(&at_limit), &at_limit, "f.py", "pkg").is_empty());
    let over = format!("x = 1\n\n\ndef f():\n{}", "    a = 1\n".repeat(50));
    let issues = check_long_functions(&module(&over), &over, "f.py", "pkg");
    assert_eq!(
        shown(&issues),
        [(
            4,
            "long-function",
            "f() is 51 lines (max 50) — extract logical chunks into named helper functions (Extract Method)"
        )]
    );
    assert_eq!(issues[0].severity, Severity::Warning);
    assert_eq!(issues[0].file, "f.py");
    assert_eq!(issues[0].package, "pkg");
    assert_eq!(issues[0].reason, None);
}

fn with_ifs(n: usize) -> String {
    format!("def f(x):\n{}", "    if x:\n        pass\n".repeat(n))
}

#[test]
fn complexity_escalates() {
    let nine = with_ifs(9);
    assert!(check_complexity(&module(&nine), &nine, "f.py", "pkg").is_empty());
    let ten = with_ifs(10);
    let issues = check_complexity(&module(&ten), &ten, "f.py", "pkg");
    assert_eq!(shown(&issues), [(1, "high-complexity", "f() has complexity 11 (max 10)")]);
    assert_eq!(issues[0].severity, Severity::Warning);
    let fourteen = with_ifs(14);
    let issues = check_complexity(&module(&fourteen), &fourteen, "f.py", "pkg");
    assert_eq!(issues[0].severity, Severity::Warning);
    let fifteen = with_ifs(15);
    let issues = check_complexity(&module(&fifteen), &fifteen, "f.py", "pkg");
    assert_eq!(issues[0].severity, Severity::Error);
    assert_eq!(issues[0].message, "f() has complexity 16 (max 10)");
}

#[test]
fn missing_types_are_reported_for_public_functions() {
    let source = "def f(a, b: int, *args, c=1, **kw):\n    pass\n\ndef _g(a):\n    pass\n\nclass C:\n    def __init__(self, x):\n        pass\n    def h(self) -> int:\n        return 1\n";
    let issues = check_missing_types(&module(source), source, "f.py", "pkg");
    let all = shown(&issues);
    assert!(all.contains(&(1, "missing-return-type", "f() missing return type annotation")));
    assert!(all.contains(&(1, "missing-param-type", "f(): param 'a' missing type annotation")));
    assert!(!all.iter().any(|i| i.2.contains("'b'") || i.2.contains("'c'")));
    assert!(!all.iter().any(|i| i.2.starts_with("_g")));
    assert!(!all.iter().any(|i| i.2.starts_with("h()")));
}

#[test]
fn parameters_are_counted() {
    let six = "def f(a, b, c, d, *e, f):\n    pass\n";
    assert!(check_excessive_params(&module(six), six, "f.py", "pkg").is_empty());
    let seven = "def f(p, /, a, b, c, d, *e, f, **g):\n    pass\n";
    let issues = check_excessive_params(&module(seven), seven, "f.py", "pkg");
    assert_eq!(
        shown(&issues),
        [(
            1,
            "too-many-params",
            "f() has 7 params (max 6) — consider a Parameter Object (a dataclass or Pydantic model bundling the related fields) instead"
        )]
    );
}

#[test]
fn returns_of_inner_functions_do_not_count() {
    let source = "def f(x):\n    def g():\n        return 0\n    if x == 1:\n        return 1\n    if x == 2:\n        return 2\n    if x == 3:\n        return 3\n    return 4\n";
    let issues = check_excessive_returns(&module(source), source, "f.py", "pkg");
    assert_eq!(
        shown(&issues),
        [(
            1,
            "excessive-returns",
            "f() has 4 return statements (max 3) — consider a Return Object bundling the result and building it up to a single return"
        )]
    );
    let three = "def f(x):\n    if x == 1:\n        return 1\n    if x == 2:\n        return 2\n    return 4\n";
    assert!(check_excessive_returns(&module(three), three, "f.py", "pkg").is_empty());
}

#[test]
fn boolean_flags_are_listed() {
    let source = "def f(a=True, b=False, c=1, *, d=True):\n    pass\n";
    let issues = check_boolean_flag_params(&module(source), source, "f.py", "pkg");
    assert_eq!(issues.len(), 1);
    assert_eq!(issues[0].severity, Severity::Info);
    assert_eq!(
        issues[0].message,
        "f() has 3 boolean flag params (a, b, d) — combinations multiply branching; consider the Strategy pattern (inject the varying behavior as an object) instead of flag-branching for it"
    );
    let two = "def f(a=True, b=False, c=None):\n    pass\n";
    assert!(check_boolean_flag_params(&module(two), two, "f.py", "pkg").is_empty());
}

fn nested(n: usize) -> String {
    let mut source = "def f(x):\n".to_string();
    for depth in 0..n {
        source.push_str(&"    ".repeat(depth + 1));
        source.push_str("if x:\n");
    }
    source.push_str(&"    ".repeat(n + 1));
    source.push_str("pass\n");
    source
}

#[test]
fn nesting_is_measured() {
    let five = nested(5);
    assert!(check_deep_nesting(&module(&five), &five, "f.py", "pkg").is_empty());
    let six = nested(6);
    let issues = check_deep_nesting(&module(&six), &six, "f.py", "pkg");
    assert_eq!(
        shown(&issues),
        [(
            1,
            "deep-nesting",
            "f() has nesting depth 6 (max 5) — use guard clauses (invert the condition, exit early) to keep the happy path unindented"
        )]
    );
}

#[test]
fn mutable_defaults_are_reported_once_per_function() {
    let source = "def f(a=[], /, b={}, *, c={1}):\n    pass\n\ndef g(a=None, b=()):\n    pass\n\nclass C:\n    async def h(self, *, x=[]):\n        pass\n";
    let issues = check_mutable_defaults(&module(source), source, "f.py", "pkg");
    assert_eq!(
        shown(&issues),
        [
            (1, "mutable-default", "f() has mutable default argument — use None instead"),
            (8, "mutable-default", "h() has mutable default argument — use None instead"),
        ]
    );
}
