//! Statements as text.

use spaghetti::unparse::{is_block_writable, is_writable, unparse_body, unparse_function};

fn module(source: &str) -> rustpython_ast::Mod {
    rustpython_parser::parse(source, rustpython_parser::Mode::Module, "f.py")
        .expect("test source must parse")
}

fn body(m: &rustpython_ast::Mod) -> &[rustpython_ast::Stmt] {
    match m {
        rustpython_ast::Mod::Module(m) => &m.body,
        _ => panic!("not a module"),
    }
}

fn written(source: &str) -> String {
    let m = module(source);
    assert!(is_block_writable(body(&m)));
    unparse_body(body(&m))
}

fn keeps(source: &str) {
    assert_eq!(written(source), source);
}

#[test]
fn functions_keep_their_signatures() {
    let source = "@a.b\n@c(1)\nasync def f(p, /, a: int=1, *args: str, k, m=2, **kw: dict) -> list[int]:\n    return a\n";
    let m = module(source);
    assert!(is_writable(&body(&m)[0]));
    assert_eq!(unparse_function(&body(&m)[0]), source);
    keeps("def f(a, *, b):\n    pass\n");
    keeps("def f():\n    yield_it()\n");
}

#[test]
fn blocks_are_indented() {
    keeps(
        "class C:\n    def f(self):\n        for x in y:\n            while x:\n                break\n            else:\n                continue\n        else:\n            pass\n",
    );
    keeps("if a:\n    b = 1\nelse:\n    c = 2\n");
    keeps("with a as b, c:\n    pass\nasync def f():\n    async with d:\n        async for e in g:\n            pass\n");
    keeps("try:\n    a\nexcept B:\n    c\nexcept:\n    d\nelse:\n    e\nfinally:\n    f\n");
    keeps("try:\n    a\nexcept* B:\n    c\n");
}

#[test]
fn statements_are_whole_lines() {
    let m = module("if a:\n    x = 1; y = 2\n");
    let text = unparse_body(body(&m));
    assert_eq!(text, "if a:\n    x = 1\n    y = 2\n");
    let source = "def f():\n    return 1\nclass C:\n    pass\ndel x\nraise\nimport a\nglobal b\n";
    for statement in body(&module(source)) {
        let text = unparse_body(std::slice::from_ref(statement));
        assert!(text.ends_with('\n') && !text.starts_with([' ', '\n']), "{text:?}");
    }
}

#[test]
fn branches_are_nested_under_else() {
    assert_eq!(
        written("if a:\n    b\nelif c:\n    d\n"),
        "if a:\n    b\nelse:\n    if c:\n        d\n"
    );
}

#[test]
fn patterns_are_left_out() {
    assert_eq!(
        written("match a:\n    case [1, b] if c:\n        d\n    case _:\n        e\n"),
        "match a:\n    case ...:\n        d\n    case ...:\n        e\n"
    );
}

#[test]
fn bases_and_handler_names_are_left_out() {
    assert_eq!(written("class C(B, m=1):\n    pass\n"), "class C:\n    pass\n");
    assert_eq!(
        written("try:\n    a\nexcept B as c:\n    d\n"),
        "try:\n    a\nexcept B:\n    d\n"
    );
}

#[test]
fn simple_statements_are_written() {
    keeps("del a, b[0]\na = b = c\nx: int = 1\ny: str\nassert a, b\nassert c\nraise\nraise a\nraise a from b\n");
    keeps("import a, b.c as d\nglobal g, h\nnonlocal n\npass\n");
    keeps("from a.b import c as d, e\n");
    assert_eq!(written("from .a import b\n"), "from a import b\n");
    assert_eq!(written("from . import b\n"), "from  import b\n");
}

#[test]
fn operators_are_named() {
    assert_eq!(
        written("a += 1\nb -= 1\nc *= 1\nd @= 1\ne /= 1\nf %= 1\ng **= 1\nh <<= 1\ni >>= 1\nj |= 1\nk ^= 1\nl &= 1\nm //= 1\n"),
        "a Add= 1\nb Sub= 1\nc Mult= 1\nd MatMult= 1\ne Div= 1\nf Mod= 1\ng Pow= 1\nh LShift= 1\ni RShift= 1\nj BitOr= 1\nk BitXor= 1\nl BitAnd= 1\nm FloorDiv= 1\n"
    );
}

#[test]
fn expressions_are_normalised() {
    assert_eq!(written("x = (1+2) * y\n"), "x = (1 + 2) * y\n");
    assert_eq!(written("x = f'{a!r:>{b}} c'\n"), "x = f'{a!r:>{b}} c'\n");
    assert_eq!(written("x = {1: 2, **d}\n"), "x = {1: 2, **d}\n");
}

#[test]
fn what_cannot_be_spelled_is_noticed() {
    let m = module("x = f'{a}'\n");
    let mut stmt = body(&m)[0].clone();
    if let rustpython_ast::Stmt::Assign(n) = &mut stmt {
        if let rustpython_ast::Expr::JoinedStr(j) = n.value.as_mut() {
            let name = n.targets[0].clone();
            j.values.push(name);
        }
    }
    assert!(!is_writable(&stmt));
    assert!(!is_block_writable(&[stmt]));
}
