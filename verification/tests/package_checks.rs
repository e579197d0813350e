//! The checks of a package as a whole.

use spaghetti::checks::cycles::{import_targets, module_and_package_for, module_level_imports};
use spaghetti::checks::package_level::{
    check_duplicate_functions_pkg, check_import_cycles_pkg, check_sync_async_twins_pkg,
    ParsedFile,
};
use spaghetti::checks::twins::twin_candidates;
use spaghetti::models::{Issue, Ratio, Severity};

fn module(source: &str) -> rustpython_ast::Mod {
    rustpython_parser::parse(source, rustpython_parser::Mode::Module, "f.py")
        .expect("test source must parse")
}

fn file(path: &str, source: &str) -> ParsedFile {
    ParsedFile {
        path: path.to_string(),
        source: source.to_string(),
        module: module(source),
    }
}

fn body(m: &rustpython_ast::Mod) -> &[rustpython_ast::Stmt] {
    match m {
        rustpython_ast::Mod::Module(m) => &m.body,
        _ => panic!("not a module"),
    }
}

fn shown(issues: &[Issue]) -> Vec<(&str, usize, &str)> {
    issues
        .iter()
        .map(|i| (i.file.as_str(), i.line, i.message.as_str()))
        .collect()
}

const CYCLE_ADVICE: &str = " — extract a shared abstraction (e.g. a typing.Protocol) both sides can depend on, and inject it instead of importing directly to break the cycle (Dependency Inversion Principle / Dependency Injection)";

#[test]
fn modules_are_named_from_the_directory_around_the_package() {
    let named = |path: &str| module_and_package_for("/w/src/boti", path);
    let pair = |a: &str, b: &str| (a.to_string(), b.to_string());
    assert_eq!(named("/w/src/boti/core/a.py"), pair("boti.core.a", "boti.core"));
    assert_eq!(named("/w/src/boti/core/__init__.py"), pair("boti.core", "boti.core"));
    assert_eq!(named("/w/src/boti/a.b.py"), pair("boti.a.b", "boti"));
    assert_eq!(named("x/y.py"), pair("x.y", "x"));
    assert_eq!(named("y.py"), pair("y", ""));
}

#[test]
fn relative_imports_are_resolved() {
    let targets = |package: &str, source: &str| {
        let m = module(source);
        match &body(&m)[0] {
            rustpython_ast::Stmt::ImportFrom(n) => import_targets(package, n),
            _ => panic!("not an import"),
        }
    };
    assert_eq!(targets("p.q", "from a.b import c\n"), ["a.b"]);
    assert_eq!(targets("p.q", "from . import c, d\n"), ["p.q.c", "p.q.d"]);
    assert_eq!(targets("p.q", "from .a import c\n"), ["p.q.a"]);
    assert_eq!(targets("p.q", "from ..a import c\n"), ["p.a"]);
    assert_eq!(targets("p.q", "from ... import c\n"), ["c"]);
    assert_eq!(targets("p.q", "from .....a import c\n"), ["a"]);
    assert_eq!(targets("", "from .a import c\n"), ["a"]);
}

#[test]
fn only_imports_that_run_on_import_count() {
    let source = "import a\nif TYPE_CHECKING:\n    import b\nif typing.TYPE_CHECKING:\n    import c\nelse:\n    import d\nif x:\n    import e, f\ndef g():\n    import h\nclass C:\n    from k import l\ntry:\n    import m\nexcept E:\n    import n\nmatch x:\n    case 1:\n        import o\n";
    let m = module(source);
    assert_eq!(
        module_level_imports(body(&m), ""),
        ["a", "e", "f", "k", "m", "n", "o"]
    );
}

#[test]
fn import_cycles_are_reported() {
    let files = [
        file("/w/boti/a.py", "from boti.b import x\n"),
        file("/w/boti/b.py", "from . import c\nimport other.a\n"),
        file("/w/boti/c.py", "import boti.a\n"),
        file("/w/boti/d.py", "import boti.a\n"),
    ];
    let issues = check_import_cycles_pkg("boti", &files, "/w/boti");
    assert_eq!(
        shown(&issues),
        [(
            "/w/boti/a.py",
            1,
            format!("Circular import: boti.a → boti.b → boti.c → boti.a{CYCLE_ADVICE}").as_str()
        )]
    );
    assert_eq!(issues[0].severity, Severity::Error);
    assert_eq!(issues[0].rule, "import-cycle");
    assert!(check_import_cycles_pkg("unknown", &files, "/w/boti").is_empty());
}

#[test]
fn cycles_through_the_same_modules_are_reported_once() {
    let files = [
        file("/w/boti/a.py", "import boti.b\nimport boti.c\n"),
        file("/w/boti/b.py", "import boti.a\nimport boti.c\n"),
        file("/w/boti/c.py", "import boti.a\nimport boti.b\nimport boti.c\n"),
    ];
    let issues = check_import_cycles_pkg("boti", &files, "/w/boti");
    let found: Vec<&str> = issues
        .iter()
        .map(|i| {
            i.message
                .strip_prefix("Circular import: ")
                .unwrap()
                .strip_suffix(CYCLE_ADVICE)
                .unwrap()
        })
        .collect();
    // From a the last neighbour is c, whose last neighbour is c itself.
    assert_eq!(
        found,
        [
            "boti.c → boti.c",
            "boti.c → boti.b → boti.c",
            "boti.a → boti.c → boti.b → boti.a",
            "boti.a → boti.c → boti.a",
        ]
    );
}

#[test]
fn packages_without_cycles_are_clean() {
    let files = [
        file("/w/boti/a.py", "import boti.b\nimport boti.c\n"),
        file("/w/boti/b.py", "import boti.c\n"),
        file("/w/boti/c.py", "def f():\n    import boti.a\n"),
    ];
    assert!(check_import_cycles_pkg("boti", &files, "/w/boti").is_empty());
}

const BODY: &str = "    a = 1\n    b = a + 2\n    c = b\n    return c\n";

#[test]
fn duplicate_bodies_are_grouped() {
    let files = [
        file("/w/z.py", &format!("x = 1\ndef f():\n{BODY}")),
        file("/w/a.py", &format!("def g(p):\n{BODY}\nclass C:\n    def h(self):\n        pass\n")),
        file("/w/b.py", "def k():\n    pass\n\ndef l():\n    pass\n"),
    ];
    let issues = check_duplicate_functions_pkg("pkg", &files, 5);
    assert_eq!(
        shown(&issues),
        [("/w/a.py", 1, "Identical body in 2 places: /w/a.py:1 (g), /w/z.py:2 (f)")]
    );
    assert_eq!(issues[0].rule, "duplicate-function-body");
    assert!(check_duplicate_functions_pkg("pkg", &files, 6).is_empty());
}

#[test]
fn stubs_are_no_duplicates() {
    let stub = "def f():\n    '''A docstring\n    of several\n    lines.'''\n    ...\n";
    let files = [file("/w/a.py", stub), file("/w/b.py", stub)];
    assert!(check_duplicate_functions_pkg("pkg", &files, 5).is_empty());
}

#[test]
fn duplicate_groups_come_by_file_and_line() {
    let other = "    x = 9\n    y = x\n    z = y\n    return z\n";
    let first = format!("def a():\n{other}\ndef b():\n{BODY}");
    let second = format!("def c():\n{BODY}\ndef d():\n{other}");
    let files = [file("/w/m.py", &first), file("/w/n.py", &second)];
    let issues = check_duplicate_functions_pkg("pkg", &files, 5);
    assert_eq!(issues.iter().map(|i| i.line).collect::<Vec<_>>(), [1, 7]);
}

#[test]
fn twins_may_have_these_names() {
    assert_eq!(
        twin_candidates("load"),
        ["_async_load", "aload", "async_load", "load_async"]
    );
    assert_eq!(
        twin_candidates("aload"),
        ["_async_aload", "aaload", "aload_async", "async_aload", "load"]
    );
    let stripped = twin_candidates("run_sync");
    assert!(stripped.contains(&"run".to_string()));
    assert!(stripped.contains(&"run_async".to_string()));
    assert!(twin_candidates("_async_x").contains(&"x".to_string()));
    assert!(twin_candidates("x_async").contains(&"x".to_string()));
    assert!(twin_candidates("async_x").contains(&"x".to_string()));
    assert!(!twin_candidates("a").contains(&String::new()));
}

const SYNC: &str = "    def load(self, key):\n        value = self.store.get(key)\n        self.seen.add(key)\n        return value\n";
const ASYNC: &str = "    async def aload(self, key):\n        value = await self.store.get(key)\n        self.seen.add(key)\n        return value\n";

fn ratio(numerator: u32, denominator: u32) -> Ratio {
    Ratio { numerator, denominator }
}

#[test]
fn twins_are_reported_at_the_upper_of_both() {
    let source = format!("class C:\n{ASYNC}\n{SYNC}");
    let files = [file("/w/a.py", &source)];
    let issues = check_sync_async_twins_pkg("pkg", &files, ratio(3, 5));
    assert_eq!(
        shown(&issues),
        [(
            "/w/a.py",
            2,
            "aload() and load() are 93% similar — likely copy-pasted sync/async twins; extract a shared helper for the non-blocking parts"
        )]
    );
    assert_eq!(issues[0].rule, "sync-async-duplication");
    assert!(check_sync_async_twins_pkg("pkg", &files, ratio(99, 100)).is_empty());
}

#[test]
fn twins_stand_in_one_scope() {
    let source = format!("class C:\n{ASYNC}\nclass D:\n{SYNC}");
    let files = [file("/w/a.py", &source)];
    assert!(check_sync_async_twins_pkg("pkg", &files, ratio(3, 5)).is_empty());
    let apart = [
        file("/w/a.py", &format!("class C:\n{ASYNC}")),
        file("/w/b.py", &format!("class C:\n{SYNC}")),
    ];
    assert!(check_sync_async_twins_pkg("pkg", &apart, ratio(3, 5)).is_empty());
}

#[test]
fn twins_of_one_name_are_reported_in_the_first_file() {
    let source = format!("class C:\n{SYNC}\n{ASYNC}");
    let files = [file("/w/b.py", &source), file("/w/a.py", &source)];
    let issues = check_sync_async_twins_pkg("pkg", &files, ratio(3, 5));
    assert_eq!(issues.len(), 1);
    assert_eq!(issues[0].file, "/w/b.py");
    assert!(issues[0].message.starts_with("load() and aload() are "));
}

#[test]
fn short_functions_have_no_twins() {
    let source = "def f():\n    a = 1\n    return a\n\nasync def af():\n    a = 1\n    return a\n";
    let files = [file("/w/a.py", source)];
    assert!(check_sync_async_twins_pkg("pkg", &files, ratio(1, 100)).is_empty());
}

#[test]
fn the_last_definition_of_a_name_counts() {
    let source = format!(
        "class C:\n{SYNC}\n{ASYNC}\n    def load(self):\n        x = 1\n        y = [2, 3]\n        raise ValueError(x, y)\n"
    );
    let files = [file("/w/a.py", &source)];
    assert!(check_sync_async_twins_pkg("pkg", &files, ratio(9, 10)).is_empty());
}
