//! Configuration, paths, texts and other parts that the checks are made of.

use spaghetti::ast_helpers::{
    collect_functions, collect_functions_with_class_context, cyclomatic_complexity, dump_stmts,
    is_private, is_trivial_body, line_count, nesting_depth, LineIndex,
};
use spaghetti::config::{
    allowed_import_prefix, default_packages, default_twin_similarity, find_workspace_root,
    is_dunder, layer_rules, ProjectDir,
};
use spaghetti::graph::find_cycles;
use spaghetti::models::{display_path, ScanResult, Severity};
use spaghetti::order::sort_texts;
use spaghetti::paths::{
    components_of, file_name_of, is_python_file, joined_path, path_at_most, stripped,
};
use spaghetti::registry::{list_names, register};
use spaghetti::text::{
    contains, decimal, ends_with, joined, left_aligned, lines_of, right_aligned, split_on,
    starts_with, text_at_most, trimmed,
};

fn module(source: &str) -> rustpython_ast::Mod {
    rustpython_parser::parse(source, rustpython_parser::Mode::Module, "f.py")
        .expect("test source must parse")
}

fn body(m: &rustpython_ast::Mod) -> &[rustpython_ast::Stmt] {
    match m {
        rustpython_ast::Mod::Module(m) => &m.body,
        _ => panic!("not a module"),
    }
}

fn texts(v: &[&str]) -> Vec<String> {
    v.iter().map(|t| t.to_string()).collect()
}

#[test]
fn offsets_lie_on_lines() {
    let index = LineIndex::new("é\nb\r\n\nd");
    assert_eq!(index.line_number(0), 1);
    assert_eq!(index.line_number(2), 1);
    assert_eq!(index.line_number(3), 2);
    assert_eq!(index.line_number(5), 2);
    assert_eq!(index.line_number(6), 3);
    assert_eq!(index.line_number(7), 4);
    assert_eq!(index.line_number(99), 4);
    assert_eq!(line_count(&index, 3, 7), 3);
}

#[test]
fn functions_know_their_classes() {
    let source = "def a():\n    pass\nclass C:\n    def b(self):\n        def c():\n            pass\n    class D:\n        def d(self):\n            pass\n    def e(self):\n        pass\n";
    let m = module(source);
    let found: Vec<(Option<String>, String)> = collect_functions_with_class_context(body(&m))
        .into_iter()
        .map(|(class, func)| (class, func.name))
        .collect();
    let some = |c: &str, f: &str| (Some(c.to_string()), f.to_string());
    assert_eq!(
        found,
        [
            (None, "a".to_string()),
            some("C", "b"),
            some("C", "c"),
            some("D", "d"),
            some("C", "e"),
        ]
    );
    let names: Vec<String> =
        collect_functions(body(&m)).into_iter().map(|f| f.name).collect();
    assert_eq!(names, ["a", "b", "c", "d", "e"]);
}

#[test]
fn branches_add_to_complexity() {
    let measure = |source: &str| {
        let m = module(source);
        let funcs = collect_functions(body(&m));
        (cyclomatic_complexity(&funcs[0]), nesting_depth(&funcs[0]))
    };
    assert_eq!(measure("def f():\n    pass\n"), (1, 0));
    assert_eq!(measure("def f():\n    if a:\n        pass\n    elif b:\n        pass\n"), (3, 2));
    assert_eq!(measure("def f():\n    for a in b:\n        while c:\n            pass\n"), (3, 2));
}

#[test]
fn match_arms_are_measured() {
    let source = "def f(x):\n    match x:\n        case 1 if a and b:\n            if c:\n                for d in e:\n                    return 1\n        case _:\n            return 2\n";
    let m = module(source);
    let funcs = collect_functions(body(&m));
    assert_eq!(cyclomatic_complexity(&funcs[0]), 4);
    assert_eq!(nesting_depth(&funcs[0]), 2);
    assert_eq!(spaghetti::ast_helpers::count_own_returns(&funcs[0]), 2);
}

#[test]
fn bodies_without_effect_are_trivial() {
    let trivial = |source: &str| {
        let m = module(source);
        is_trivial_body(collect_functions(body(&m))[0].body())
    };
    assert!(trivial("def f():\n    pass\n"));
    assert!(trivial("def f():\n    '''doc'''\n"));
    assert!(trivial("def f():\n    '''doc'''\n    ...\n"));
    assert!(!trivial("def f():\n    return 1\n"));
}

#[test]
fn dumps_hold_no_positions() {
    let a = module("x = f(1)\n");
    let b = module("\n\nx   =  f( 1 )\n");
    let c = module("x = f(2)\n");
    assert_eq!(dump_stmts(body(&a)), dump_stmts(body(&b)));
    assert_ne!(dump_stmts(body(&a)), dump_stmts(body(&c)));
    assert_eq!(
        dump_stmts(body(&module("return x\n"))),
        r#"(("Return"(("Name""x""Load"))))"#
    );
    let first = module("x = 'range: 1..2'\n");
    let second = module("x = 'range: 3..4'\n");
    assert_ne!(dump_stmts(body(&first)), dump_stmts(body(&second)));
}

#[test]
fn dumps_hold_every_part() {
    let source = [
        "x = 1", "x = 1.0", "x = 1j", "x = 2j", "x = '1'", "x = b'1'", "x = u'1'", "x = True",
        "x = None", "x = ...", "x += 1", "x -= 1", "x: int = 1", "x: int", "x = y = 1",
        "x = [1]", "x = (1,)", "x = {1}", "x = {1: 1}", "x = {**y}", "x = y[1]", "x = y[1:]",
        "x = y[:1]", "x = y.z", "x = not y", "x = -y", "x = y and z", "x = y or z", "x = y < z",
        "x = y <= z", "x = y if z else w", "x = lambda: y", "x = lambda y: y",
        "x = lambda y=1: y", "x = lambda *y: y", "x = lambda **y: y", "x = lambda *, y: y",
        "x = lambda y, /: y", "x = f(y)", "x = f(*y)", "x = f(y=y)", "x = f(**y)",
        "x = [y for y in z]", "x = {y for y in z}", "x = (y for y in z)",
        "x = [y for y in z if y]", "x = {y: y for y in z}", "x = f'{y}'", "x = f'{y!r}'",
        "x = f'{y:z}'", "x = (y := z)", "del x", "pass", "import x", "import x as y",
        "from x import y", "from .x import y", "from . import y", "global x", "raise",
        "raise x", "raise x from y", "assert x", "assert x, y", "if x: y", "if x: y\nelse: z",
        "while x: y", "for x in y: z", "with x: y", "with x as z: y", "try: x\nexcept: y",
        "try: x\nexcept y: z", "try: x\nexcept y as w: z", "try: x\nfinally: y",
        "try: x\nexcept* y: z", "def f(): x", "def f() -> y: x", "@y\ndef f(): x",
        "async def f(): x", "class C: x", "class C(y): x", "class C(y=z): x",
        "match x:\n    case 1: y", "match x:\n    case 2: y", "match x:\n    case None: y",
        "match x:\n    case z: y", "match x:\n    case _: y", "match x:\n    case [z]: y",
        "match x:\n    case {1: z}: y", "match x:\n    case {1: z, **w}: y",
        "match x:\n    case z(): y", "match x:\n    case z(w=1): y", "match x:\n    case 1 | 2: y",
        "match x:\n    case [*z]: y", "match x:\n    case z if w: y",
    ];
    let dumps: Vec<String> =
        source.iter().map(|s| dump_stmts(body(&module(&format!("{s}\n"))))).collect();
    for i in 0..dumps.len() {
        for j in 0..i {
            assert_ne!(dumps[i], dumps[j], "{} and {}", source[i], source[j]);
        }
    }
}

#[test]
fn names_are_private_or_dunder() {
    assert!(is_private("_a"));
    assert!(!is_private("a"));
    assert!(is_dunder("__a__"));
    assert!(is_dunder("____"));
    assert!(!is_dunder("___"));
    assert!(!is_dunder("__a"));
}

#[test]
fn workspaces_have_packages() {
    assert!(default_packages(None).is_empty());
    let packages = default_packages(Some("/w"));
    assert_eq!(list_names(&packages), ["boti", "boti-dask", "boti-data", "spaghetti"]);
    assert_eq!(packages[2].1, "/w/boti-data/src/boti_data");
    assert_eq!(allowed_import_prefix("boti-data"), Some("boti_data."));
    assert_eq!(allowed_import_prefix("spaghetti"), None);
    assert_eq!(layer_rules("etl-demo").len(), 1);
    assert!(layer_rules("boti").is_empty());
    let usual = default_twin_similarity();
    assert_eq!((usual.numerator, usual.denominator), (3, 5));
}

#[test]
fn the_nearest_workspace_is_found() {
    let dir = |path: &str, text: Option<&str>| ProjectDir {
        path: path.to_string(),
        pyproject: text.map(|t| t.to_string()),
    };
    let workspace = "[tool.uv.workspace]\nmembers = []\n";
    let dirs = vec![
        dir("/a/b/c", Some("[tool.uv]\nx = 1\n")),
        dir("/a/b", Some("not toml [")),
        dir("/a", Some(workspace)),
        dir("/", Some(workspace)),
    ];
    assert_eq!(find_workspace_root(&dirs), Some("/a"));
    assert_eq!(find_workspace_root(&vec![dir("/a", None)]), None);
    assert_eq!(
        find_workspace_root(&vec![dir("/a", Some("[tool]\nuv = \"workspace\"\n"))]),
        None
    );
}

#[test]
fn paths_are_taken_apart() {
    assert_eq!(components_of("/a//b/./c/"), ["/", "a", "b", "c"]);
    assert_eq!(components_of("./a/../b"), [".", "a", "..", "b"]);
    assert_eq!(stripped("/w/a/b.py", "/w/"), Some("a/b.py".to_string()));
    assert_eq!(stripped("/w/a", "/w/a"), Some(String::new()));
    assert_eq!(stripped("/wx/a", "/w"), None);
    assert_eq!(joined_path("/w", "a/b"), "/w/a/b");
    assert_eq!(joined_path("/w/", "a"), "/w/a");
    assert_eq!(joined_path("/w", "/a"), "/a");
    assert_eq!(file_name_of("/a/b.py"), Some("b.py".to_string()));
    assert_eq!(file_name_of("/a/.."), None);
    assert!(is_python_file("x/y.z.py"));
    assert!(!is_python_file("x/.py"));
    assert!(path_at_most("/a/b", "/a-b"));
    assert!(!path_at_most("/a/c", "/a/b/z"));
    assert_eq!(display_path("/w/a.py", Some("/w")), "a.py");
    assert_eq!(display_path("/x/a.py", Some("/w")), "/x/a.py");
}

#[test]
fn texts_are_taken_apart() {
    assert_eq!(lines_of("a\r\nb\n\nc"), ["a", "b", "", "c"]);
    assert_eq!(lines_of("a\n"), ["a"]);
    assert!(lines_of("").is_empty());
    assert_eq!(split_on("a,,b", ','), ["a", "", "b"]);
    assert_eq!(trimmed("\u{a0} a b\t\n"), "a b");
    assert_eq!(joined(&texts(&["a", "b", "c"]), ", "), "a, b, c");
    assert_eq!(decimal(1203), "1203");
    assert_eq!(decimal(0), "0");
    assert!(contains("abcd", "bc") && !contains("abcd", "bd") && contains("", ""));
    assert!(starts_with("abc", "ab") && !starts_with("abc", "b"));
    assert!(ends_with("abc", "bc") && !ends_with("abc", "abcd"));
    assert_eq!(left_aligned("é", 3), "é  ");
    assert_eq!(right_aligned("12345", 3), "12345");
    assert_eq!(right_aligned("1", 3), "  1");
    assert!(text_at_most("a", "ab") && text_at_most("Z", "a") && !text_at_most("b", "a"));
    assert_eq!(sort_texts(&texts(&["b", "a", "B", "a"])), ["B", "a", "a", "b"]);
}

#[test]
fn graphs_have_cycles() {
    let edges = |v: &[(&str, &str)]| {
        v.iter().map(|(a, b)| (a.to_string(), b.to_string())).collect::<Vec<_>>()
    };
    assert!(find_cycles(&vec![]).is_empty());
    assert!(find_cycles(&edges(&[("a", "b"), ("b", "c"), ("a", "c")])).is_empty());
    assert_eq!(find_cycles(&edges(&[("a", "a")])), [["a", "a"]]);
    assert_eq!(
        find_cycles(&edges(&[("b", "a"), ("a", "b"), ("c", "d"), ("d", "c")])),
        [["a", "b", "a"], ["c", "d", "c"]]
    );
}

#[test]
fn registries_stay_in_order() {
    let mut v = vec![];
    register(&mut v, "b".to_string(), "1".to_string());
    register(&mut v, "a".to_string(), "2".to_string());
    register(&mut v, "c".to_string(), "3".to_string());
    register(&mut v, "a".to_string(), "4".to_string());
    let shown: Vec<(&str, &str)> = v.iter().map(|(a, b)| (a.as_str(), b.as_str())).collect();
    assert_eq!(shown, [("a", "4"), ("b", "1"), ("c", "3")]);
}

#[test]
fn severities_have_words_and_counts() {
    assert_eq!(Severity::Info.as_str(), "info");
    assert_eq!(Severity::Warning.as_str(), "warning");
    assert_eq!(Severity::Error.as_str(), "error");
    let result = ScanResult::default();
    assert_eq!(
        (result.error_count(), result.warning_count(), result.info_count()),
        (0, 0, 0)
    );
}
