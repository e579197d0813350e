//! The checks of classes.

use spaghetti::checks::ast_per_file::{
    check_deep_inheritance, check_encapsulation_violations, check_excessive_decorators,
    check_god_class,
};
use spaghetti::models::{Issue, Severity};

fn module(source: &str) -> rustpython_ast::Mod {
    rustpython_parser::parse(source, rustpython_parser::Mode::Module, "f.py")
        .expect("test source must parse")
}

fn shown(issues: &[Issue]) -> Vec<(usize, &str)> {
    issues.iter().map(|i| (i.line, i.message.as_str())).collect()
}

#[test]
fn decorators_are_counted() {
    let source = "@a\n@b\n@c\n@d\ndef f():\n    pass\n\n@a\n@b\n@c\nclass C:\n    @a\n    @b\n    @c\n    @d\n    @e\n    async def g(self):\n        pass\n";
    let issues = check_excessive_decorators(&module(source), source, "f.py", "pkg");
    assert_eq!(issues.len(), 2);
    assert_eq!(
        issues[0].message,
        "function 'f' has 4 decorators (max 3) — consider a wrapper or composition"
    );
    assert_eq!(
        issues[1].message,
        "function 'g' has 5 decorators (max 3) — consider a wrapper or composition"
    );
}

fn class_with(methods: usize, attributes: usize) -> String {
    let mut source = "class C:\n    def m0(self):\n        pass\n".to_string();
    for i in 0..attributes {
        source.push_str(&format!("        self.a{i} = self.b{i}\n"));
    }
    for i in 1..methods {
        source.push_str(&format!("    def m{i}(self):\n        self.a0 = 1\n"));
    }
    source
}

#[test]
fn god_classes_escalate() {
    let report = |methods: usize, attributes: usize| {
        let source = class_with(methods, attributes);
        check_god_class(&module(&source), &source, "f.py", "pkg")
    };
    assert!(report(24, 20).is_empty());
    let issues = report(25, 0);
    assert_eq!(issues.len(), 1);
    assert_eq!(issues[0].rule, "god-class");
    assert_eq!(issues[0].severity, Severity::Warning);
    let issues = report(26, 3);
    assert_eq!(
        shown(&issues),
        [(
            1,
            "class C has 26 methods and 3 attributes (max 25/20) — consider splitting responsibilities"
        )]
    );
    assert_eq!(issues[0].severity, Severity::Warning);
    assert_eq!(report(37, 1)[0].severity, Severity::Warning);
    assert_eq!(report(38, 1)[0].severity, Severity::Error);
    assert_eq!(report(1, 21)[0].severity, Severity::Warning);
    assert_eq!(report(1, 30)[0].severity, Severity::Warning);
    assert_eq!(report(1, 31)[0].severity, Severity::Error);
}

#[test]
fn ancestors_are_counted_by_name() {
    let source = "class A(x.Base):\n    pass\nclass B(A):\n    pass\nclass C(B):\n    pass\nclass D(C):\n    pass\nclass E(D):\n    pass\n";
    let issues = check_deep_inheritance(&module(source), source, "f.py", "pkg");
    assert_eq!(
        shown(&issues),
        [(
            9,
            "class 'E' has effective inheritance depth 5 (max 4) — use composition, e.g. the Strategy pattern, instead of another inheritance level"
        )]
    );
    let four = "class A: pass\nclass B(A): pass\nclass C(B): pass\nclass D(C): pass\nclass E(D): pass\n";
    assert!(check_deep_inheritance(&module(four), four, "f.py", "pkg").is_empty());
}

#[test]
fn circular_and_repeated_bases_count_once() {
    let source = "class A(B):\n    pass\nclass B(A):\n    pass\nclass C(B, A, B, metaclass=M):\n    pass\n";
    assert!(check_deep_inheritance(&module(source), source, "f.py", "pkg").is_empty());
    let wide = "class C(P, Q, R, S[int], T, U):\n    pass\n";
    let issues = check_deep_inheritance(&module(wide), wide, "f.py", "pkg");
    assert_eq!(issues.len(), 1);
    assert!(issues[0].message.contains("depth 5 "));
}

#[test]
fn classes_are_found_at_any_level() {
    let source = "if a:\n    class A(X): pass\ntry:\n    class B(A, Y): pass\nexcept E:\n    pass\nmatch x:\n    case 1:\n        class C(B, Z, W): pass\n";
    let issues = check_deep_inheritance(&module(source), source, "f.py", "pkg");
    assert_eq!(issues.len(), 1);
    assert_eq!(issues[0].line, 9);
    assert!(issues[0].message.starts_with("class 'C' has effective inheritance depth 6 "));
}

#[test]
fn private_members_stay_private() {
    let source = "class C:\n    def f(self, other):\n        self._a = other._b\n        cls._c()\n        C._d\n        super()._e()\n        other.__dict__\n        other._g = 1\n        getattr(other, '_h')\n        getattr(self, '_i')\n        setattr(other, 'j', 1)\n        hasattr(x.y, '_k')\n\ndef g(c):\n    return C._l\n";
    let issues = check_encapsulation_violations(&module(source), source, "f.py", "pkg");
    assert_eq!(
        shown(&issues),
        [
            (3, "Accesses private member '._b' through something other than self/cls"),
            (9, "getattr(..., '_h', ...) reaches into a private attribute"),
            (12, "hasattr(..., '_k', ...) reaches into a private attribute"),
            (15, "Accesses private member '._l' through something other than self/cls"),
        ]
    );
    assert_eq!(issues[0].severity, Severity::Info);
}
