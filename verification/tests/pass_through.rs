//! What `check_pass_through_methods` reports.

use spaghetti::checks::ast_per_file::check_pass_through_methods;
use spaghetti::models::Issue;

fn issues_for(source: &str) -> Vec<Issue> {
    let module = rustpython_parser::parse(source, rustpython_parser::Mode::Module, "f.py")
        .expect("test source must parse");
    check_pass_through_methods(&module, source, "f.py", "pkg")
}

#[test]
fn flags_pure_delegation() {
    let issues = issues_for(
        "class Wrapper:\n    def get(self, key):\n        return self._inner.get(key)\n",
    );
    assert_eq!(issues.len(), 1);
    assert_eq!(issues[0].rule, "pass-through-method");
    assert!(issues[0].message.contains("_inner.get()"));
}

#[test]
fn flags_expression_statement_form() {
    let issues =
        issues_for("class Wrapper:\n    def close(self):\n        self._inner.close()\n");
    assert_eq!(issues.len(), 1);
}

#[test]
fn flags_awaited_call() {
    let issues = issues_for(
        "class Wrapper:\n    async def get(self, key):\n        return await self._inner.get(key)\n",
    );
    assert_eq!(issues.len(), 1);
}

#[test]
fn ignores_transformed_args() {
    let issues = issues_for(
        "class Wrapper:\n    def get(self, key):\n        return self._inner.get(key.upper())\n",
    );
    assert!(issues.is_empty());
}

#[test]
fn ignores_multi_statement_body() {
    let issues = issues_for(
        "class Wrapper:\n    def get(self, key):\n        log(key)\n        return self._inner.get(key)\n",
    );
    assert!(issues.is_empty());
}

#[test]
fn ignores_dunder_methods() {
    let issues = issues_for(
        "class Wrapper:\n    def __init__(self, inner):\n        self._inner = inner\n",
    );
    assert!(issues.is_empty());
}

#[test]
fn ignores_super_call() {
    let issues = issues_for(
        "class Child(Base):\n    def get(self, key):\n        return super().get(key)\n",
    );
    assert!(issues.is_empty());
}

#[test]
fn allows_docstring_only_body_to_still_flag() {
    let issues = issues_for(
        "class Wrapper:\n    def get(self, key):\n        '''Docstring.'''\n        return self._inner.get(key)\n",
    );
    assert_eq!(issues.len(), 1);
}
