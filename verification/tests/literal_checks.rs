//! The checks of literals and annotations.

use spaghetti::checks::ast_per_file::{
    check_magic_numbers, check_magic_strings, check_untyped_dicts,
};
use spaghetti::models::Severity;

fn module(source: &str) -> rustpython_ast::Mod {
    rustpython_parser::parse(source, rustpython_parser::Mode::Module, "f.py")
        .expect("test source must parse")
}

#[test]
fn numbers_are_shown_as_written() {
    let source = "def f():\n    a = 1000000000000000000000000\n    b = 1.0\n    c = 2.0\n    d = 1e300\n    e = [i * 7 for i in x]\n    with g(8) as h:\n        pass\n    k = 2j\n";
    let issues = check_magic_numbers(&module(source), source, "f.py", "pkg");
    let shown: Vec<(usize, &str)> = issues
        .iter()
        .map(|i| (i.line, i.message.split(' ').nth(2).unwrap()))
        .collect();
    assert_eq!(
        shown,
        [
            (2, "1000000000000000000000000"),
            (4, "2.0"),
            (5, "1e300"),
            (6, "7"),
            (7, "8"),
        ]
    );
    assert_eq!(issues[1].severity, Severity::Info);
    assert_eq!(
        issues[1].message,
        "magic number 2.0 — extract to a named constant, or an enum.IntEnum if it's one of a fixed set of status/category codes"
    );
}

#[test]
fn numbers_of_inner_functions_count_for_each_function_around() {
    let source = "def f():\n    def g():\n        return 5\n";
    let issues = check_magic_numbers(&module(source), source, "f.py", "pkg");
    assert_eq!(issues.iter().map(|i| i.line).collect::<Vec<_>>(), [3, 3]);
}

#[test]
fn string_comparisons_are_counted_over_the_file() {
    let source = "def f(s):\n    return s == 'open'\n\ndef g(s):\n    return 'open' != s and s == 'shut' and s in ('open',)\n";
    let issues = check_magic_strings(&module(source), source, "f.py", "pkg");
    assert_eq!(issues.iter().map(|i| i.line).collect::<Vec<_>>(), [2, 5]);
    assert_eq!(
        issues[0].message,
        "magic string 'open' compared 2 times — consider a Value Object that canonicalizes it once (e.g. a Pydantic model with a @field_validator) instead of repeated string comparisons"
    );
}

#[test]
fn bare_dicts_are_reported_once_per_line() {
    let source = "def f(a: dict, b: dict, c: dict[str, dict]) -> list[dict]:\n    x: dict[str, int] = {}\n    y: 'dict' = {}\n    z: dict = {}\n    w = dict()\n\ndef g(*args: dict,\n      **kw: dict[dict, int]): pass\n";
    let issues = check_untyped_dicts(&module(source), source, "f.py", "pkg");
    assert_eq!(issues.iter().map(|i| i.line).collect::<Vec<_>>(), [1, 4, 7, 8]);
    assert_eq!(issues[0].rule, "untyped-dict");
    assert_eq!(
        issues[0].message,
        "Bare 'dict' used in type hint — use dict[str, Any] or similar, a dataclass/Pydantic model (a DTO) if the shape is fixed, or typing.TypedDict if it must stay a plain dict at runtime"
    );
}

#[test]
fn match_arms_hold_literals() {
    let source = "def f(x, y):\n    match x:\n        case 42:\n            return 43\n        case z if y == 'kind':\n            return y == 'kind'\n";
    let m = module(source);
    let lines = |issues: Vec<spaghetti::models::Issue>| {
        issues.iter().map(|i| i.line).collect::<Vec<_>>()
    };
    assert_eq!(lines(check_magic_numbers(&m, source, "f.py", "pkg")), [3, 4]);
    assert_eq!(lines(check_magic_strings(&m, source, "f.py", "pkg")), [5, 6]);
}
