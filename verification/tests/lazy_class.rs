//! What `check_lazy_class` reports.

use spaghetti::checks::ast_per_file::check_lazy_class;
use spaghetti::models::Issue;

fn issues_for(source: &str) -> Vec<Issue> {
    let module = rustpython_parser::parse(source, rustpython_parser::Mode::Module, "f.py")
        .expect("test source must parse");
    check_lazy_class(&module, source, "f.py", "pkg")
}

#[test]
fn flags_zero_methods() {
    let issues = issues_for("class C:\n    x = 1\n");
    assert_eq!(issues.len(), 1);
    assert_eq!(issues[0].rule, "lazy-class");
    assert!(issues[0].message.contains("0 method"));
}

#[test]
fn flags_one_method() {
    let issues = issues_for("class C:\n    def f(self):\n        pass\n");
    assert_eq!(issues.len(), 1);
    assert!(issues[0].message.contains("1 method"));
}

#[test]
fn allows_two_methods() {
    let issues = issues_for(
        "class C:\n    def f(self):\n        pass\n    def g(self):\n        pass\n",
    );
    assert!(issues.is_empty());
}

#[test]
fn allows_pydantic_base_model() {
    let issues = issues_for("class C(BaseModel):\n    x: int = 1\n");
    assert!(issues.is_empty());
}

#[test]
fn allows_pydantic_base_model_qualified() {
    let issues = issues_for("class C(pydantic.BaseModel):\n    x: int = 1\n");
    assert!(issues.is_empty());
}

#[test]
fn allows_pydantic_base_settings() {
    let issues = issues_for("class C(BaseSettings):\n    x: int = 1\n");
    assert!(issues.is_empty());
}

#[test]
fn allows_named_tuple() {
    let issues = issues_for("class C(NamedTuple):\n    x: int\n");
    assert!(issues.is_empty());
}

#[test]
fn allows_named_tuple_qualified() {
    let issues = issues_for("class C(typing.NamedTuple):\n    x: int\n");
    assert!(issues.is_empty());
}

#[test]
fn allows_dataclass_decorator() {
    let issues = issues_for("@dataclass\nclass C:\n    x: int = 1\n");
    assert!(issues.is_empty());
}

#[test]
fn allows_dataclass_decorator_with_args() {
    let issues = issues_for("@dataclass(frozen=True)\nclass C:\n    x: int = 1\n");
    assert!(issues.is_empty());
}

#[test]
fn still_flags_unrelated_base() {
    // Sanity check: the pydantic/dataclass exemption must not swallow
    // genuine hits — an unrelated base class doesn't grant an exemption.
    let issues = issues_for("class C(SomeOtherBase):\n    x = 1\n");
    assert_eq!(issues.len(), 1);
}

#[test]
fn allows_builtin_exception_subclass() {
    let issues = issues_for(
        "class SchemaValidationError(TypeError):\n    '''Raised on bad schema.'''\n",
    );
    assert!(issues.is_empty());
}

#[test]
fn allows_plain_exception_subclass() {
    let issues = issues_for("class MyError(Exception):\n    pass\n");
    assert!(issues.is_empty());
}

#[test]
fn allows_custom_exception_hierarchy() {
    // Not a builtin base, but named by the same Error/Exception/Warning
    // convention — covers subclassing a project's own exception base.
    let issues = issues_for("class NotFoundError(AppBaseError):\n    pass\n");
    assert!(issues.is_empty());
}

#[test]
fn allows_warning_subclass() {
    let issues = issues_for("class DeprecatedFeatureWarning(UserWarning):\n    pass\n");
    assert!(issues.is_empty());
}

#[test]
fn allows_qualified_exception_subclass() {
    let issues = issues_for("class Boom(builtins.RuntimeError):\n    pass\n");
    assert!(issues.is_empty());
}
