//! Checks of single functions.

use crate::ast_helpers::{
    collect_functions, complexity, count_own_returns, cyclomatic_complexity, def_args, def_name,
    def_range, def_returns, func_stmts, functions, is_private, line_count, line_in, nesting,
    nesting_depth, own_returns, private, FuncNode,
};
use crate::checks::common::{
    body_of, module_body, none, on_functions, one, report, site_of, Site, SiteView,
};
use crate::config::{
    escalates, COMPLEXITY_THRESHOLD, ESCALATION_DENOMINATOR, ESCALATION_NUMERATOR, MAX_FUNCTION_LINES,
    MAX_FUNC_PARAMS, MAX_NESTING_DEPTH, MAX_RETURNS, MIN_BOOLEAN_FLAGS,
};
use crate::models::{issue_views, push_issue, Issue, IssueView, Severity};
use crate::syntax::{identifier_text, name_of, range_end, range_start};
use crate::text::{count_text, dec, decimal, join, joined, same, texts};
use rustpython_ast::{ArgWithDefault, Arguments, Constant, Expr, Mod, Stmt};
use vstd::prelude::*;
use vstd::string::*;

verus! {

// ── Counting ────────────────────────────────────────────────────────────────

/// How many functions a module defines.
pub fn count_functions(module: &Mod) -> (r: usize)
    ensures
        r == functions(body_of(*module)).len(),
{
    let funcs = collect_functions(module_body(module));
    assert(func_stmts(funcs@).len() == funcs@.len());
    funcs.len()
}

// ── Long functions ──────────────────────────────────────────────────────────

/// How many lines a function has.
pub open spec fn function_lines(site: SiteView, s: &Stmt) -> nat {
    (line_in(site.starts, range_end(def_range(s)) as nat) - line_in(
        site.starts,
        range_start(def_range(s)) as nat,
    ) + 1) as nat
}

/// A function of too many lines.
pub open spec fn long_function(site: SiteView, s: &Stmt) -> Seq<IssueView> {
    let lines = function_lines(site, s);
    if lines > MAX_FUNCTION_LINES {
        seq![
            report(
                site,
                range_start(def_range(s)),
                Severity::Warning,
                "long-function"@,
                def_name(s) + "() is "@ + dec(lines) + " lines (max "@ + dec(
                    MAX_FUNCTION_LINES as nat,
                )
                    + ") — extract logical chunks into named helper functions (Extract Method)"@,
            ),
        ]
    } else {
        seq![]
    }
}

fn long_function_issues(site: &Site, func: &FuncNode) -> (r: Vec<Issue>)
    requires
        func.well_formed(),
    ensures
        issue_views(r@) == long_function(site@, func.stmt),
{
    let lines: usize = line_count(&site.index, func.start, func.end());
    if lines > MAX_FUNCTION_LINES {
        let message = func.name.clone().concat("() is ").concat(count_text(lines).as_str()).concat(
            " lines (max ",
        ).concat(count_text(MAX_FUNCTION_LINES).as_str()).concat(
            ") — extract logical chunks into named helper functions (Extract Method)",
        );
        one(site.report(func.start, Severity::Warning, "long-function", message))
    } else {
        none()
    }
}

/// `long_function` for one function, as a relation.
pub open spec fn each_long_function<'a>(site: SiteView) -> spec_fn(&'a Stmt) -> Seq<IssueView> {
    |s: &'a Stmt| long_function(site, s)
}

/// The functions of a file that have too many lines.
pub open spec fn long_functions(module: Mod, site: SiteView) -> Seq<IssueView> {
    functions(body_of(module)).flat_map(each_long_function(site))
}

/// The functions of a file that have too many lines.
pub fn check_long_functions(module: &Mod, source: &str, filepath: &str, package: &str) -> (r: Vec<Issue>)
    ensures
        issue_views(r@) == long_functions(*module, site_of(source@, filepath@, package@)),
{
    let site = Site::new(source, filepath, package);
    let check = |func: &FuncNode| -> (r: Vec<Issue>)
        requires
            func.well_formed(),
        ensures
            issue_views(r@) == long_function(site@, func.stmt),
        { long_function_issues(&site, func) };
    on_functions(module, check, Ghost(each_long_function(site@)))
}

// ── Complexity ──────────────────────────────────────────────────────────────

/// A function with too many branches.
pub open spec fn complex_function(site: SiteView, s: &Stmt) -> Seq<IssueView> {
    let cc = complexity(s);
    if cc > COMPLEXITY_THRESHOLD {
        seq![
            report(
                site,
                range_start(def_range(s)),
                if escalates(cc, COMPLEXITY_THRESHOLD as int) {
                    Severity::Error
                } else {
                    Severity::Warning
                },
                "high-complexity"@,
                def_name(s) + "() has complexity "@ + dec(cc as nat) + " (max "@ + dec(
                    COMPLEXITY_THRESHOLD as nat,
                ) + ")"@,
            ),
        ]
    } else {
        seq![]
    }
}

fn complex_function_issues(site: &Site, func: &FuncNode) -> (r: Vec<Issue>)
    requires
        func.well_formed(),
    ensures
        issue_views(r@) == complex_function(site@, func.stmt),
{
    let cc: i64 = cyclomatic_complexity(func);
    if cc > COMPLEXITY_THRESHOLD as i64 {
        let severity = if ESCALATION_DENOMINATOR as i128 * cc as i128 > ESCALATION_NUMERATOR as i128
            * COMPLEXITY_THRESHOLD as i128 {
            Severity::Error
        } else {
            Severity::Warning
        };
        let message = func.name.clone().concat("() has complexity ").concat(
            decimal(cc as u128).as_str(),
        ).concat(" (max ").concat(count_text(COMPLEXITY_THRESHOLD).as_str()).concat(")");
        one(site.report(func.start, severity, "high-complexity", message))
    } else {
        none()
    }
}

/// `complex_function` for one function, as a relation.
pub open spec fn each_complex_function<'a>(site: SiteView) -> spec_fn(&'a Stmt) -> Seq<IssueView> {
    |s: &'a Stmt| complex_function(site, s)
}

/// The functions of a file that have too many branches.
pub open spec fn complex_functions(module: Mod, site: SiteView) -> Seq<IssueView> {
    functions(body_of(module)).flat_map(each_complex_function(site))
}

/// The functions of a file that have too many branches.
pub fn check_complexity(module: &Mod, source: &str, filepath: &str, package: &str) -> (r: Vec<Issue>)
    ensures
        issue_views(r@) == complex_functions(*module, site_of(source@, filepath@, package@)),
{
    let site = Site::new(source, filepath, package);
    let check = |func: &FuncNode| -> (r: Vec<Issue>)
        requires
            func.well_formed(),
        ensures
            issue_views(r@) == complex_function(site@, func.stmt),
        { complex_function_issues(&site, func) };
    on_functions(module, check, Ghost(each_complex_function(site@)))
}

// ── Type annotations ────────────────────────────────────────────────────────

/// A parameter without an annotation, unless it is `self` or `cls`.
pub open spec fn untyped_param(site: SiteView, s: &Stmt, arg: ArgWithDefault) -> Seq<IssueView> {
    let name = identifier_text(arg.def.arg);
    if name != "self"@ && name != "cls"@ && arg.def.annotation is None {
        seq![
            report(
                site,
                range_start(def_range(s)),
                Severity::Info,
                "missing-param-type"@,
                def_name(s) + "(): param '"@ + name + "' missing type annotation"@,
            ),
        ]
    } else {
        seq![]
    }
}

/// `untyped_param` for the parameters of one function, as a relation.
pub open spec fn each_untyped_param(site: SiteView, s: &Stmt) -> spec_fn(ArgWithDefault) -> Seq<
    IssueView,
> {
    |arg: ArgWithDefault| untyped_param(site, s, arg)
}

/// A function without a return annotation, unless it is `__init__`.
pub open spec fn untyped_return(site: SiteView, s: &Stmt) -> Seq<IssueView> {
    if def_returns(s) is None && def_name(s) != "__init__"@ {
        seq![
            report(
                site,
                range_start(def_range(s)),
                Severity::Warning,
                "missing-return-type"@,
                def_name(s) + "() missing return type annotation"@,
            ),
        ]
    } else {
        seq![]
    }
}

/// The annotations that a public function lacks. Only its ordinary parameters are
/// looked at: neither positional-only nor keyword-only ones, `*args` or `**kwargs`.
pub open spec fn untyped_function(site: SiteView, s: &Stmt) -> Seq<IssueView> {
    if private(def_name(s)) {
        seq![]
    } else {
        untyped_return(site, s) + def_args(s).args@.flat_map(each_untyped_param(site, s))
    }
}

fn untyped_function_issues(site: &Site, func: &FuncNode) -> (r: Vec<Issue>)
    requires
        func.well_formed(),
    ensures
        issue_views(r@) == untyped_function(site@, func.stmt),
{
    if is_private(func.name.as_str()) {
        return none();
    }
    let mut issues = none();
    if func.return_annotation().is_none() && !same(func.name.as_str(), "__init__") {
        let message = func.name.clone().concat("() missing return type annotation");
        push_issue(
            &mut issues,
            site.report(func.start, Severity::Warning, "missing-return-type", message),
        );
    }
    let ghost first = untyped_return(site@, func.stmt);
    assert(issue_views(issues@) =~= first);
    let params = &func.args().args;
    let ghost f = each_untyped_param(site@, func.stmt);
    let mut i: usize = 0;
    assert(issue_views(issues@) =~= first + params@.take(0).flat_map(f));
    while i < params.len()
        invariant
            i <= params@.len(),
            func.well_formed(),
            f == each_untyped_param(site@, func.stmt),
            issue_views(issues@) == first + params@.take(i as int).flat_map(f),
        decreases params@.len() - i,
    {
        let ghost before = issue_views(issues@);
        proof {
            params@.lemma_flat_map_take_append(f, i as int);
        }
        let name = name_of(&params[i].def.arg);
        if !same(name, "self") && !same(name, "cls") && params[i].def.annotation.is_none() {
            let message = func.name.clone().concat("(): param '").concat(name).concat(
                "' missing type annotation",
            );
            push_issue(
                &mut issues,
                site.report(func.start, Severity::Info, "missing-param-type", message),
            );
        }
        assert(issue_views(issues@) =~= before + f(params@[i as int]));
        assert(before + f(params@[i as int]) =~= first + params@.take(i + 1).flat_map(f));
        i += 1;
    }
    assert(params@.take(i as int) =~= params@);
    issues
}

/// `untyped_function` for one function, as a relation.
pub open spec fn each_untyped_function<'a>(site: SiteView) -> spec_fn(&'a Stmt) -> Seq<IssueView> {
    |s: &'a Stmt| untyped_function(site, s)
}

/// The annotations that the public functions of a file lack.
pub open spec fn untyped_functions(module: Mod, site: SiteView) -> Seq<IssueView> {
    functions(body_of(module)).flat_map(each_untyped_function(site))
}

/// The annotations that the public functions of a file lack.
pub fn check_missing_types(module: &Mod, source: &str, filepath: &str, package: &str) -> (r: Vec<Issue>)
    ensures
        issue_views(r@) == untyped_functions(*module, site_of(source@, filepath@, package@)),
{
    let site = Site::new(source, filepath, package);
    let check = |func: &FuncNode| -> (r: Vec<Issue>)
        requires
            func.well_formed(),
        ensures
            issue_views(r@) == untyped_function(site@, func.stmt),
        { untyped_function_issues(&site, func) };
    on_functions(module, check, Ghost(each_untyped_function(site@)))
}

// ── Parameters ──────────────────────────────────────────────────────────────

/// How many parameters a function has: ordinary and keyword-only ones, `*args` and
/// `**kwargs`.
pub open spec fn param_count(args: Arguments) -> nat {
    args.args@.len() + args.kwonlyargs@.len() + (if args.vararg is Some {
        1nat
    } else {
        0nat
    }) + (if args.kwarg is Some {
        1nat
    } else {
        0nat
    })
}

/// A function with too many parameters.
pub open spec fn wide_function(site: SiteView, s: &Stmt) -> Seq<IssueView> {
    let total = param_count(def_args(s));
    if total > MAX_FUNC_PARAMS {
        seq![
            report(
                site,
                range_start(def_range(s)),
                Severity::Warning,
                "too-many-params"@,
                def_name(s) + "() has "@ + dec(total) + " params (max "@ + dec(
                    MAX_FUNC_PARAMS as nat,
                )
                    + ") — consider a Parameter Object (a dataclass or Pydantic model bundling the related fields) instead"@,
            ),
        ]
    } else {
        seq![]
    }
}

fn wide_function_issues(site: &Site, func: &FuncNode) -> (r: Vec<Issue>)
    requires
        func.well_formed(),
    ensures
        issue_views(r@) == wide_function(site@, func.stmt),
{
    let args = func.args();
    let mut total: u128 = args.args.len() as u128 + args.kwonlyargs.len() as u128;
    if args.vararg.is_some() {
        total += 1;
    }
    if args.kwarg.is_some() {
        total += 1;
    }
    if total > MAX_FUNC_PARAMS as u128 {
        let message = func.name.clone().concat("() has ").concat(decimal(total).as_str()).concat(
            " params (max ",
        ).concat(count_text(MAX_FUNC_PARAMS).as_str()).concat(
            ") — consider a Parameter Object (a dataclass or Pydantic model bundling the related fields) instead",
        );
        one(site.report(func.start, Severity::Warning, "too-many-params", message))
    } else {
        none()
    }
}

/// `wide_function` for one function, as a relation.
pub open spec fn each_wide_function<'a>(site: SiteView) -> spec_fn(&'a Stmt) -> Seq<IssueView> {
    |s: &'a Stmt| wide_function(site, s)
}

/// The functions of a file that have too many parameters.
pub open spec fn wide_functions(module: Mod, site: SiteView) -> Seq<IssueView> {
    functions(body_of(module)).flat_map(each_wide_function(site))
}

/// The functions of a file that have too many parameters.
pub fn check_excessive_params(module: &Mod, source: &str, filepath: &str, package: &str) -> (r: Vec<Issue>)
    ensures
        issue_views(r@) == wide_functions(*module, site_of(source@, filepath@, package@)),
{
    let site = Site::new(source, filepath, package);
    let check = |func: &FuncNode| -> (r: Vec<Issue>)
        requires
            func.well_formed(),
        ensures
            issue_views(r@) == wide_function(site@, func.stmt),
        { wide_function_issues(&site, func) };
    on_functions(module, check, Ghost(each_wide_function(site@)))
}

// ── Returns ─────────────────────────────────────────────────────────────────

/// A function with too many `return` statements of its own.
pub open spec fn many_returns(site: SiteView, s: &Stmt) -> Seq<IssueView> {
    let n = own_returns(s);
    if n > MAX_RETURNS {
        seq![
            report(
                site,
                range_start(def_range(s)),
                Severity::Info,
                "excessive-returns"@,
                def_name(s) + "() has "@ + dec(n) + " return statements (max "@ + dec(
                    MAX_RETURNS as nat,
                )
                    + ") — consider a Return Object bundling the result and building it up to a single return"@,
            ),
        ]
    } else {
        seq![]
    }
}

fn many_returns_issues(site: &Site, func: &FuncNode) -> (r: Vec<Issue>)
    requires
        func.well_formed(),
    ensures
        issue_views(r@) == many_returns(site@, func.stmt),
{
    let n: usize = count_own_returns(func);
    if n > MAX_RETURNS {
        let message = func.name.clone().concat("() has ").concat(count_text(n).as_str()).concat(
            " return statements (max ",
        ).concat(count_text(MAX_RETURNS).as_str()).concat(
            ") — consider a Return Object bundling the result and building it up to a single return",
        );
        one(site.report(func.start, Severity::Info, "excessive-returns", message))
    } else {
        none()
    }
}

/// `many_returns` for one function, as a relation.
pub open spec fn each_many_returns<'a>(site: SiteView) -> spec_fn(&'a Stmt) -> Seq<IssueView> {
    |s: &'a Stmt| many_returns(site, s)
}

/// The functions of a file that have too many `return` statements of their own.
pub open spec fn functions_with_many_returns(module: Mod, site: SiteView) -> Seq<IssueView> {
    functions(body_of(module)).flat_map(each_many_returns(site))
}

/// The functions of a file that have too many `return` statements of their own.
pub fn check_excessive_returns(module: &Mod, source: &str, filepath: &str, package: &str) -> (r: Vec<Issue>)
    ensures
        issue_views(r@) == functions_with_many_returns(*module, site_of(source@, filepath@, package@)),
{
    let site = Site::new(source, filepath, package);
    let check = |func: &FuncNode| -> (r: Vec<Issue>)
        requires
            func.well_formed(),
        ensures
            issue_views(r@) == many_returns(site@, func.stmt),
        { many_returns_issues(&site, func) };
    on_functions(module, check, Ghost(each_many_returns(site@)))
}

// ── Boolean flags ───────────────────────────────────────────────────────────

/// Whether an expression is `True` or `False`.
pub open spec fn is_bool(e: &Expr) -> bool {
    e matches Expr::Constant(c) && c.value is Bool
}

/// The name of a parameter that is `True` or `False` by default.
pub open spec fn flag_name(arg: &ArgWithDefault) -> Option<Seq<char>> {
    if arg.default matches Some(e) && is_bool(&*e) {
        Some(identifier_text(arg.def.arg))
    } else {
        None
    }
}

/// `flag_name`, as a relation.
pub open spec fn each_flag() -> spec_fn(ArgWithDefault) -> Seq<Seq<char>> {
    |arg: ArgWithDefault|
        match flag_name(&arg) {
            Some(name) => seq![name],
            None => seq![],
        }
}

/// The names of the ordinary and keyword-only parameters that are flags.
pub open spec fn flag_names(args: Arguments) -> Seq<Seq<char>> {
    args.args@.flat_map(each_flag()) + args.kwonlyargs@.flat_map(each_flag())
}

/// A function with several boolean flags among its parameters.
pub open spec fn flagged_function(site: SiteView, s: &Stmt) -> Seq<IssueView> {
    let flags = flag_names(def_args(s));
    if flags.len() >= MIN_BOOLEAN_FLAGS {
        seq![
            report(
                site,
                range_start(def_range(s)),
                Severity::Info,
                "boolean-flag-params"@,
                def_name(s) + "() has "@ + dec(flags.len()) + " boolean flag params ("@ + join(
                    flags,
                    ", "@,
                )
                    + ") — combinations multiply branching; consider the Strategy pattern (inject the varying behavior as an object) instead of flag-branching for it"@,
            ),
        ]
    } else {
        seq![]
    }
}

fn is_bool_constant(expr: &Expr) -> (r: bool)
    ensures
        r == is_bool(expr),
{
    match expr {
        Expr::Constant(c) => match &c.value {
            Constant::Bool(_) => true,
            _ => false,
        },
        _ => false,
    }
}

fn flag<'a>(arg: &'a ArgWithDefault) -> (r: Option<&'a str>)
    ensures
        match r {
            Some(t) => flag_name(arg) == Some(t@),
            None => flag_name(arg) is None,
        },
{
    match &arg.default {
        Some(e) => if is_bool_constant(e) {
            Some(name_of(&arg.def.arg))
        } else {
            None
        },
        None => None,
    }
}

/// The names of the parameters that are flags.
fn flags_in(v: &Vec<ArgWithDefault>) -> (r: Vec<String>)
    ensures
        texts(r@) == v@.flat_map(each_flag()),
{
    let ghost f = each_flag();
    let mut out: Vec<String> = Vec::new();
    let mut i: usize = 0;
    assert(texts(out@) =~= v@.take(0).flat_map(f));
    while i < v.len()
        invariant
            i <= v@.len(),
            f == each_flag(),
            texts(out@) == v@.take(i as int).flat_map(f),
        decreases v@.len() - i,
    {
        let ghost before = texts(out@);
        proof {
            v@.lemma_flat_map_take_append(f, i as int);
        }
        match flag(&v[i]) {
            Some(t) => {
                out.push(t.to_owned());
                assert(texts(out@) =~= before + seq![t@]);
            },
            None => {
                assert(before + seq![] =~= before);
            },
        }
        i += 1;
    }
    assert(v@.take(i as int) =~= v@);
    out
}

fn flagged_function_issues(site: &Site, func: &FuncNode) -> (r: Vec<Issue>)
    requires
        func.well_formed(),
    ensures
        issue_views(r@) == flagged_function(site@, func.stmt),
{
    let args = func.args();
    let mut flags = flags_in(&args.args);
    let mut more = flags_in(&args.kwonlyargs);
    let ghost first = texts(flags@);
    let ghost second = texts(more@);
    flags.append(&mut more);
    assert(texts(flags@) =~= first + second);
    if flags.len() >= MIN_BOOLEAN_FLAGS {
        let message = func.name.clone().concat("() has ").concat(
            count_text(flags.len()).as_str(),
        ).concat(" boolean flag params (").concat(joined(&flags, ", ").as_str()).concat(
            ") — combinations multiply branching; consider the Strategy pattern (inject the varying behavior as an object) instead of flag-branching for it",
        );
        one(site.report(func.start, Severity::Info, "boolean-flag-params", message))
    } else {
        none()
    }
}

/// `flagged_function` for one function, as a relation.
pub open spec fn each_flagged_function<'a>(site: SiteView) -> spec_fn(&'a Stmt) -> Seq<IssueView> {
    |s: &'a Stmt| flagged_function(site, s)
}

/// The functions of a file that have several boolean flags among their parameters.
pub open spec fn flagged_functions(module: Mod, site: SiteView) -> Seq<IssueView> {
    functions(body_of(module)).flat_map(each_flagged_function(site))
}

/// The functions of a file that have several boolean flags among their parameters.
pub fn check_boolean_flag_params(module: &Mod, source: &str, filepath: &str, package: &str) -> (r: Vec<Issue>)
    ensures
        issue_views(r@) == flagged_functions(*module, site_of(source@, filepath@, package@)),
{
    let site = Site::new(source, filepath, package);
    let check = |func: &FuncNode| -> (r: Vec<Issue>)
        requires
            func.well_formed(),
        ensures
            issue_views(r@) == flagged_function(site@, func.stmt),
        { flagged_function_issues(&site, func) };
    on_functions(module, check, Ghost(each_flagged_function(site@)))
}

// ── Nesting ─────────────────────────────────────────────────────────────────

/// A function whose blocks are nested too deep.
pub open spec fn nested_function(site: SiteView, s: &Stmt) -> Seq<IssueView> {
    let depth = nesting(s);
    if depth > MAX_NESTING_DEPTH {
        seq![
            report(
                site,
                range_start(def_range(s)),
                Severity::Warning,
                "deep-nesting"@,
                def_name(s) + "() has nesting depth "@ + dec(depth) + " (max "@ + dec(
                    MAX_NESTING_DEPTH as nat,
                )
                    + ") — use guard clauses (invert the condition, exit early) to keep the happy path unindented"@,
            ),
        ]
    } else {
        seq![]
    }
}

fn nested_function_issues(site: &Site, func: &FuncNode) -> (r: Vec<Issue>)
    requires
        func.well_formed(),
    ensures
        issue_views(r@) == nested_function(site@, func.stmt),
{
    let depth: usize = nesting_depth(func);
    if depth > MAX_NESTING_DEPTH {
        let message = func.name.clone().concat("() has nesting depth ").concat(
            count_text(depth).as_str(),
        ).concat(" (max ").concat(count_text(MAX_NESTING_DEPTH).as_str()).concat(
            ") — use guard clauses (invert the condition, exit early) to keep the happy path unindented",
        );
        one(site.report(func.start, Severity::Warning, "deep-nesting", message))
    } else {
        none()
    }
}

/// `nested_function` for one function, as a relation.
pub open spec fn each_nested_function<'a>(site: SiteView) -> spec_fn(&'a Stmt) -> Seq<IssueView> {
    |s: &'a Stmt| nested_function(site, s)
}

/// The functions of a file whose blocks are nested too deep.
pub open spec fn nested_functions(module: Mod, site: SiteView) -> Seq<IssueView> {
    functions(body_of(module)).flat_map(each_nested_function(site))
}

/// The functions of a file whose blocks are nested too deep.
pub fn check_deep_nesting(module: &Mod, source: &str, filepath: &str, package: &str) -> (r: Vec<Issue>)
    ensures
        issue_views(r@) == nested_functions(*module, site_of(source@, filepath@, package@)),
{
    let site = Site::new(source, filepath, package);
    let check = |func: &FuncNode| -> (r: Vec<Issue>)
        requires
            func.well_formed(),
        ensures
            issue_views(r@) == nested_function(site@, func.stmt),
        { nested_function_issues(&site, func) };
    on_functions(module, check, Ghost(each_nested_function(site@)))
}

// ── Mutable defaults ────────────────────────────────────────────────────────

/// Whether an expression is a list, dictionary or set display.
pub open spec fn is_mutable(e: &Expr) -> bool {
    e is List || e is Dict || e is Set
}

/// Whether a parameter has such a display as its default.
pub open spec fn defaults_to_mutable(arg: &ArgWithDefault) -> bool {
    arg.default matches Some(e) && is_mutable(&*e)
}

/// Whether one of a list of parameters does.
pub open spec fn any_mutable(params: Seq<ArgWithDefault>) -> bool {
    exists|i: int| 0 <= i < params.len() && defaults_to_mutable(&#[trigger] params[i])
}

/// A function with a mutable default, be it of a positional-only, an ordinary or a
/// keyword-only parameter.
pub open spec fn mutable_default(site: SiteView, s: &Stmt) -> Seq<IssueView> {
    let args = def_args(s);
    if any_mutable(args.posonlyargs@) || any_mutable(args.args@) || any_mutable(args.kwonlyargs@) {
        seq![
            report(
                site,
                range_start(def_range(s)),
                Severity::Warning,
                "mutable-default"@,
                def_name(s) + "() has mutable default argument — use None instead"@,
            ),
        ]
    } else {
        seq![]
    }
}

/// Whether an expression is a list, dictionary or set display.
pub fn is_mutable_literal(expr: &Expr) -> (r: bool)
    ensures
        r == is_mutable(expr),
{
    match expr {
        Expr::List(_) | Expr::Dict(_) | Expr::Set(_) => true,
        _ => false,
    }
}

fn has_mutable(params: &Vec<ArgWithDefault>) -> (r: bool)
    ensures
        r == any_mutable(params@),
{
    let mut i: usize = 0;
    while i < params.len()
        invariant
            i <= params@.len(),
            forall|j: int| 0 <= j < i ==> !defaults_to_mutable(&#[trigger] params@[j]),
        decreases params@.len() - i,
    {
        if let Some(e) = &params[i].default {
            if is_mutable_literal(e) {
                assert(defaults_to_mutable(&params@[i as int]));
                return true;
            }
        }
        i += 1;
    }
    false
}

fn mutable_default_issues(site: &Site, func: &FuncNode) -> (r: Vec<Issue>)
    requires
        func.well_formed(),
    ensures
        issue_views(r@) == mutable_default(site@, func.stmt),
{
    let args = func.args();
    if has_mutable(&args.posonlyargs) || has_mutable(&args.args) || has_mutable(&args.kwonlyargs) {
        let message = func.name.clone().concat("() has mutable default argument — use None instead");
        one(site.report(func.start, Severity::Warning, "mutable-default", message))
    } else {
        none()
    }
}

/// `mutable_default` for one function, as a relation.
pub open spec fn each_mutable_default<'a>(site: SiteView) -> spec_fn(&'a Stmt) -> Seq<IssueView> {
    |s: &'a Stmt| mutable_default(site, s)
}

/// The functions of a file that have a mutable default.
pub open spec fn mutable_defaults(module: Mod, site: SiteView) -> Seq<IssueView> {
    functions(body_of(module)).flat_map(each_mutable_default(site))
}

/// The functions of a file that have a mutable default.
pub fn check_mutable_defaults(module: &Mod, source: &str, filepath: &str, package: &str) -> (r: Vec<Issue>)
    ensures
        issue_views(r@) == mutable_defaults(*module, site_of(source@, filepath@, package@)),
{
    let site = Site::new(source, filepath, package);
    let check = |func: &FuncNode| -> (r: Vec<Issue>)
        requires
            func.well_formed(),
        ensures
            issue_views(r@) == mutable_default(site@, func.stmt),
        { mutable_default_issues(&site, func) };
    on_functions(module, check, Ghost(each_mutable_default(site@)))
}

} // verus!
