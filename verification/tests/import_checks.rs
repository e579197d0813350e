//! The checks of imports.

use spaghetti::checks::ast_per_file::{
    check_circular_imports, check_layer_violations, check_star_imports,
    check_transport_in_library, check_unused_imports, collect_imported_names, collect_used_names,
};
use spaghetti::models::{Issue, Severity};

fn module(source: &str) -> rustpython_ast::Mod {
    rustpython_parser::parse(source, rustpython_parser::Mode::Module, "f.py")
        .expect("test source must parse")
}

fn shown(issues: &[Issue]) -> Vec<(usize, &str)> {
    issues.iter().map(|i| (i.line, i.message.as_str())).collect()
}

#[test]
fn unused_imports_are_reported_by_position() {
    let source = "import os.path\nimport sys as system\nfrom a import b, c as d, _\nfrom __future__ import annotations\nfrom e import *\n\ndef f():\n    import json\n    return d\n";
    let issues = check_unused_imports(&module(source), source, "pkg/m.py", "pkg");
    assert_eq!(
        shown(&issues),
        [
            (1, "'os' imported but never used"),
            (2, "'system' imported but never used"),
            (3, "'b' imported but never used"),
            (8, "'json' imported but never used"),
        ]
    );
    assert_eq!(issues[0].severity, Severity::Warning);
    assert!(check_unused_imports(&module(source), source, "pkg/__init__.py", "pkg").is_empty());
}

#[test]
fn names_in_dunder_all_are_used() {
    let source = "from a import b, c\n__all__ = ['b', \"c\"]\n";
    assert!(check_unused_imports(&module(source), source, "m.py", "pkg").is_empty());
    assert!(collect_used_names(&module(source)).contains(&"b".to_string()));
}

#[test]
fn the_last_import_of_a_name_counts() {
    let source = "import a\nx = 1\nimport a\n";
    let names = collect_imported_names(&module(source));
    assert_eq!(names, [("a".to_string(), 15u32)]);
    let issues = check_unused_imports(&module(source), source, "m.py", "pkg");
    assert_eq!(shown(&issues), [(3, "'a' imported but never used")]);
}

#[test]
fn uses_are_found_everywhere() {
    let source = "import a, b, c, d, e\n\ndef f(x: a = b):\n    with c as g:\n        return h(k=d)\n\nv = [e for w in z]\n";
    assert!(check_unused_imports(&module(source), source, "m.py", "pkg").is_empty());
}

#[test]
fn star_imports_are_reported() {
    let source = "from a.b import *\n\ndef f():\n    from . import *\n";
    let issues = check_star_imports(&module(source), source, "m.py", "pkg");
    assert_eq!(
        shown(&issues),
        [
            (1, "Star import from 'a.b' — import specific names instead"),
            (4, "Star import from '' — import specific names instead"),
        ]
    );
}

#[test]
fn layers_are_kept_apart() {
    let source = "import boti_data.x\nfrom boti.y import z\nimport other\n";
    let issues = check_layer_violations(
        &module(source),
        source,
        "/w/etl/routes/api.py",
        "etl-demo",
        "/w/etl",
    );
    assert_eq!(issues.len(), 2);
    assert_eq!(issues[0].severity, Severity::Error);
    assert_eq!(issues[0].rule, "layer-violation");
    assert_eq!(
        issues[0].message,
        "Module 'routes/api.py' imports 'boti_data.x' — forbidden by layer rules; depend on an abstraction (e.g. a typing.Protocol) the lower layer implements, injected as a constructor/function parameter instead of imported directly (Dependency Inversion Principle / Dependency Injection)"
    );
    assert_eq!(issues[1].line, 2);
    let elsewhere = |path: &str, package: &str| {
        check_layer_violations(&module(source), source, path, package, "/w/etl").len()
    };
    assert_eq!(elsewhere("/w/etl/models/api.py", "etl-demo"), 0);
    assert_eq!(elsewhere("/w/other/routes/api.py", "etl-demo"), 0);
    assert_eq!(elsewhere("/w/etl/routes/api.py", "boti"), 0);
    let core = "from fastapi import X\n";
    assert_eq!(
        check_layer_violations(&module(core), core, "/w/etl/a.py", "etl-core", "/w/etl").len(),
        1
    );
}

#[test]
fn libraries_import_no_transport() {
    let source = "from flask.views import View\nimport django\nfrom httpx import get\n";
    let issues = check_transport_in_library(&module(source), source, "m.py", "boti");
    assert_eq!(issues.len(), 2);
    assert_eq!(issues[0].line, 1);
    assert!(issues[0].message.starts_with(
        "Library imports transport module 'flask' — violates G9; depend on an abstraction"
    ));
    assert_eq!(issues[1].line, 3);
    assert!(check_transport_in_library(&module(source), source, "m.py", "app").is_empty());
}

#[test]
fn children_import_no_parents() {
    let source = "from pkg import a\nfrom pkg.sub import b\nfrom pkg.sub.mod import c\nfrom other import d\n\ndef f():\n    from pkg import e\n";
    let issues =
        check_circular_imports(&module(source), source, "/w/pkg/sub/mod.py", "p", "/w/pkg");
    assert_eq!(issues.iter().map(|i| i.line).collect::<Vec<_>>(), [1, 2]);
    assert!(issues[1].message.starts_with(
        "Child module imports parent 'pkg.sub' — potential circular dependency;"
    ));
    assert!(
        check_circular_imports(&module(source), source, "/x/mod.py", "p", "/w/pkg").is_empty()
    );
}
