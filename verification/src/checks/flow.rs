//! Checks of the ways control takes through statements.

use crate::ast_helpers::{
    def_body, dump, dump_stmts, functions, is_ellipsis, is_ellipsis_only, stmt_range, stmt_start,
    FuncNode,
};
use crate::checks::common::{
    body_of, none, on_functions, on_visits, one, report, site_of, Site, SiteView,
};
use crate::models::{issue_views, push_issue, Issue, IssueView, Severity};
use crate::syntax::{identifier_text, name_of, range_start, start_of};
use crate::text::{count_text, dec, same};
use crate::walk::{outset, statements, walk_stmts, Node, Seen, Visit};
use rustpython_ast::{ExceptHandler, ExceptHandlerExceptHandler, Expr, Mod, Stmt, StmtIf};
use vstd::prelude::*;
use vstd::string::*;

verus! {

// ── Bare except ─────────────────────────────────────────────────────────────

/// A handler that names no exception.
pub open spec fn bare_handler(site: SiteView, v: Seen) -> Seq<IssueView> {
    match v.node {
        Node::Handler(h) => if h.type_ is None {
            seq![
                report(
                    site,
                    range_start(h.range),
                    Severity::Warning,
                    "bare-except"@,
                    "Bare except clause — catch specific exceptions instead"@,
                ),
            ]
        } else {
            seq![]
        },
        _ => seq![],
    }
}

fn bare_handler_issues(site: &Site, v: &Visit) -> (r: Vec<Issue>)
    ensures
        issue_views(r@) == bare_handler(site@, v@),
{
    if let Node::Handler(h) = v.node {
        if h.type_.is_none() {
            return one(
                site.report(
                    start_of(&h.range),
                    Severity::Warning,
                    "bare-except",
                    "Bare except clause — catch specific exceptions instead".to_owned(),
                ),
            );
        }
    }
    none()
}

/// `bare_handler` for one visit, as a relation.
pub open spec fn each_bare_handler<'a>(site: SiteView) -> spec_fn(Seen<'a>) -> Seq<IssueView> {
    |v: Seen<'a>| bare_handler(site, v)
}

/// The handlers of a file that name no exception.
pub open spec fn bare_handlers(module: Mod, site: SiteView) -> Seq<IssueView> {
    walk_stmts(body_of(module), statements(), outset()).flat_map(each_bare_handler(site))
}

/// The handlers of a file that name no exception.
pub fn check_bare_except(module: &Mod, source: &str, filepath: &str, package: &str) -> (r: Vec<Issue>)
    ensures
        issue_views(r@) == bare_handlers(*module, site_of(source@, filepath@, package@)),
{
    let site = Site::new(source, filepath, package);
    let check = |v: &Visit| -> (r: Vec<Issue>)
        ensures
            issue_views(r@) == bare_handler(site@, v@),
        { bare_handler_issues(&site, v) };
    on_visits(module, statements(), check, Ghost(each_bare_handler(site@)))
}

// ── Missing else ────────────────────────────────────────────────────────────

/// How many statements a body has at least for its missing counterpart to matter.
pub const NON_TRIVIAL_BODY_THRESHOLD: usize = 2;

/// Whether a statement always leaves the block that it stands in.
pub open spec fn ends_flow(s: &Stmt) -> bool {
    s is Return || s is Raise || s is Break || s is Continue
}

/// Whether a statement at the end of a body only hands on to a last step: a nested
/// `if` without an `else`, a call or a `yield` whose value is dropped, or a loop.
pub open spec fn hands_on(s: &Stmt) -> bool {
    match s {
        Stmt::If(n) => n.orelse@.len() == 0,
        Stmt::Expr(e) => *e.value is Call || *e.value is Yield || *e.value is YieldFrom,
        Stmt::For(_) => true,
        Stmt::AsyncFor(_) => true,
        Stmt::While(_) => true,
        _ => false,
    }
}

/// Whether an expression is an attribute or a subscript.
pub open spec fn is_state(e: &Expr) -> bool {
    e is Attribute || e is Subscript
}

/// Whether a statement assigns to attributes and subscripts only: the state that is
/// there already, not a fresh name.
pub open spec fn updates_state(s: &Stmt) -> bool {
    match s {
        Stmt::Assign(n) => n.targets@.len() > 0 && forall|i: int|
            0 <= i < n.targets@.len() ==> is_state(&#[trigger] n.targets@[i]),
        Stmt::AugAssign(n) => is_state(&*n.target),
        Stmt::AnnAssign(n) => is_state(&*n.target),
        _ => false,
    }
}

/// An `if` of several statements without an `else`, unless its last statement
/// leaves the block, hands on to a last step or updates state.
pub open spec fn lacks_else(n: &StmtIf) -> bool {
    let last = n.body@.last();
    n.orelse@.len() == 0 && n.body@.len() >= NON_TRIVIAL_BODY_THRESHOLD && !ends_flow(&last)
        && !hands_on(&last) && !updates_state(&last)
}

/// An `if` whose negative path is missing.
pub open spec fn missing_else(site: SiteView, v: Seen) -> Seq<IssueView> {
    match v.node {
        Node::Stmt(Stmt::If(n)) => if lacks_else(n) {
            seq![
                report(
                    site,
                    range_start(n.range),
                    Severity::Info,
                    "missing-else"@,
                    "'if' block has "@ + dec(n.body@.len())
                        + " statements but no else/elif — missing the negative path"@,
                ),
            ]
        } else {
            seq![]
        },
        _ => seq![],
    }
}

/// Whether a statement always leaves the block that it stands in.
pub fn is_unreachable_after(stmt: &Stmt) -> (r: bool)
    ensures
        r == ends_flow(stmt),
{
    match stmt {
        Stmt::Return(_) | Stmt::Raise(_) | Stmt::Break(_) | Stmt::Continue(_) => true,
        _ => false,
    }
}

/// Whether a statement at the end of a body only hands on to a last step.
pub fn is_guard_delegation_tail(stmt: &Stmt) -> (r: bool)
    ensures
        r == hands_on(stmt),
{
    match stmt {
        Stmt::If(n) => n.orelse.len() == 0,
        Stmt::Expr(e) => match &*e.value {
            Expr::Call(_) | Expr::Yield(_) | Expr::YieldFrom(_) => true,
            _ => false,
        },
        Stmt::For(_) | Stmt::AsyncFor(_) | Stmt::While(_) => true,
        _ => false,
    }
}

fn is_state_target(e: &Expr) -> (r: bool)
    ensures
        r == is_state(e),
{
    match e {
        Expr::Attribute(_) | Expr::Subscript(_) => true,
        _ => false,
    }
}

/// Whether a statement assigns to attributes and subscripts only.
pub fn is_trailing_state_mutation(stmt: &Stmt) -> (r: bool)
    ensures
        r == updates_state(stmt),
{
    match stmt {
        Stmt::Assign(n) => {
            let mut i: usize = 0;
            while i < n.targets.len()
                invariant
                    *stmt == Stmt::Assign(*n),
                    i <= n.targets@.len(),
                    forall|j: int| 0 <= j < i ==> is_state(&#[trigger] n.targets@[j]),
                decreases n.targets@.len() - i,
            {
                if !is_state_target(&n.targets[i]) {
                    assert(!is_state(&n.targets@[i as int]));
                    return false;
                }
                i += 1;
            }
            n.targets.len() > 0
        },
        Stmt::AugAssign(n) => is_state_target(&n.target),
        Stmt::AnnAssign(n) => is_state_target(&n.target),
        _ => false,
    }
}

fn missing_else_issues(site: &Site, v: &Visit) -> (r: Vec<Issue>)
    ensures
        issue_views(r@) == missing_else(site@, v@),
{
    if let Node::Stmt(s) = v.node {
        if let Stmt::If(n) = s {
            let count: usize = n.body.len();
            if n.orelse.len() == 0 && count >= NON_TRIVIAL_BODY_THRESHOLD {
                let last = &n.body[count - 1];
                if !is_unreachable_after(last) && !is_guard_delegation_tail(last)
                    && !is_trailing_state_mutation(last) {
                    let message = "'if' block has ".to_owned().concat(
                        count_text(count).as_str(),
                    ).concat(" statements but no else/elif — missing the negative path");
                    return one(
                        site.report(start_of(&n.range), Severity::Info, "missing-else", message),
                    );
                }
            }
        }
    }
    none()
}

/// `missing_else` for one visit, as a relation.
pub open spec fn each_missing_else<'a>(site: SiteView) -> spec_fn(Seen<'a>) -> Seq<IssueView> {
    |v: Seen<'a>| missing_else(site, v)
}

/// The `if` statements of a file whose negative path is missing.
pub open spec fn missing_elses(module: Mod, site: SiteView) -> Seq<IssueView> {
    walk_stmts(body_of(module), statements(), outset()).flat_map(each_missing_else(site))
}

/// The `if` statements of a file whose negative path is missing.
pub fn check_missing_else(module: &Mod, source: &str, filepath: &str, package: &str) -> (r: Vec<Issue>)
    ensures
        issue_views(r@) == missing_elses(*module, site_of(source@, filepath@, package@)),
{
    let site = Site::new(source, filepath, package);
    let check = |v: &Visit| -> (r: Vec<Issue>)
        ensures
            issue_views(r@) == missing_else(site@, v@),
        { missing_else_issues(&site, v) };
    on_visits(module, statements(), check, Ghost(each_missing_else(site@)))
}

// ── Swallowed exceptions ────────────────────────────────────────────────────

/// Whether a body is a single `pass` or `...`.
pub open spec fn does_nothing(body: Seq<Stmt>) -> bool {
    body.len() == 1 && (body[0] is Pass || is_ellipsis(&body[0]))
}

/// The name of the exception that a handler catches, as far as it is a plain name.
pub open spec fn caught_name(h: &ExceptHandlerExceptHandler) -> Seq<char> {
    match h.type_ {
        Some(t) => match *t {
            Expr::Name(n) => identifier_text(n.id),
            _ => "Exception"@,
        },
        None => "Exception"@,
    }
}

/// A handler that discards its exception.
pub open spec fn swallowed(site: SiteView, v: Seen) -> Seq<IssueView> {
    match v.node {
        Node::Handler(h) => if does_nothing(h.body@) {
            seq![
                report(
                    site,
                    range_start(h.range),
                    Severity::Warning,
                    "swallowed-exception"@,
                    "except "@ + caught_name(h)
                        + ": silently discards the error with no log/reraise"@,
                ),
            ]
        } else {
            seq![]
        },
        _ => seq![],
    }
}

/// Whether a body is a single `pass` or `...`.
pub fn is_pass_or_ellipsis_only(body: &[Stmt]) -> (r: bool)
    ensures
        r == does_nothing(body@),
{
    if body.len() != 1 {
        return false;
    }
    match &body[0] {
        Stmt::Pass(_) => true,
        _ => is_ellipsis_only(&body[0]),
    }
}

fn swallowed_issues(site: &Site, v: &Visit) -> (r: Vec<Issue>)
    ensures
        issue_views(r@) == swallowed(site@, v@),
{
    if let Node::Handler(h) = v.node {
        if is_pass_or_ellipsis_only(h.body.as_slice()) {
            let name: &str = match &h.type_ {
                Some(t) => match &**t {
                    Expr::Name(n) => name_of(&n.id),
                    _ => "Exception",
                },
                None => "Exception",
            };
            let message = "except ".to_owned().concat(name).concat(
                ": silently discards the error with no log/reraise",
            );
            return one(
                site.report(start_of(&h.range), Severity::Warning, "swallowed-exception", message),
            );
        }
    }
    none()
}

/// `swallowed` for one visit, as a relation.
pub open spec fn each_swallowed<'a>(site: SiteView) -> spec_fn(Seen<'a>) -> Seq<IssueView> {
    |v: Seen<'a>| swallowed(site, v)
}

/// The handlers of a file that discard their exception.
pub open spec fn swallowed_exceptions(module: Mod, site: SiteView) -> Seq<IssueView> {
    walk_stmts(body_of(module), statements(), outset()).flat_map(each_swallowed(site))
}

/// The handlers of a file that discard their exception.
pub fn check_swallowed_exceptions(module: &Mod, source: &str, filepath: &str, package: &str) -> (r: Vec<Issue>)
    ensures
        issue_views(r@) == swallowed_exceptions(*module, site_of(source@, filepath@, package@)),
{
    let site = Site::new(source, filepath, package);
    let check = |v: &Visit| -> (r: Vec<Issue>)
        ensures
            issue_views(r@) == swallowed(site@, v@),
        { swallowed_issues(&site, v) };
    on_visits(module, statements(), check, Ghost(each_swallowed(site@)))
}

// ── Duplicate branches ──────────────────────────────────────────────────────

/// Whether the two branches of an `if` are the same block; an `elif` is no branch.
pub open spec fn same_branches(n: &StmtIf) -> bool {
    n.orelse@.len() > 0 && !(n.orelse@.len() == 1 && n.orelse@[0] is If) && n.body@.len() > 0
        && dump(n.body@) == dump(n.orelse@)
}

/// An `if` whose condition has no effect.
pub open spec fn duplicate_branch(site: SiteView, v: Seen) -> Seq<IssueView> {
    match v.node {
        Node::Stmt(Stmt::If(n)) => if same_branches(n) {
            seq![
                report(
                    site,
                    range_start(n.range),
                    Severity::Warning,
                    "duplicate-branch"@,
                    "if/else branches are structurally identical — the condition has no effect"@,
                ),
            ]
        } else {
            seq![]
        },
        _ => seq![],
    }
}

fn has_same_branches(n: &StmtIf) -> (r: bool)
    ensures
        r == same_branches(n),
{
    if n.orelse.len() == 0 || n.body.len() == 0 {
        return false;
    }
    if n.orelse.len() == 1 {
        if let Stmt::If(_) = &n.orelse[0] {
            return false;
        }
    }
    same(
        dump_stmts(n.body.as_slice()).as_str(),
        dump_stmts(n.orelse.as_slice()).as_str(),
    )
}

fn duplicate_branch_issues(site: &Site, v: &Visit) -> (r: Vec<Issue>)
    ensures
        issue_views(r@) == duplicate_branch(site@, v@),
{
    if let Node::Stmt(s) = v.node {
        if let Stmt::If(n) = s {
            if has_same_branches(n) {
                return one(
                    site.report(
                        start_of(&n.range),
                        Severity::Warning,
                        "duplicate-branch",
                        "if/else branches are structurally identical — the condition has no effect".to_owned(),
                    ),
                );
            }
        }
    }
    none()
}

/// `duplicate_branch` for one visit, as a relation.
pub open spec fn each_duplicate_branch<'a>(site: SiteView) -> spec_fn(Seen<'a>) -> Seq<IssueView> {
    |v: Seen<'a>| duplicate_branch(site, v)
}

/// The `if` statements of a file whose branches are the same.
pub open spec fn duplicate_branches(module: Mod, site: SiteView) -> Seq<IssueView> {
    walk_stmts(body_of(module), statements(), outset()).flat_map(each_duplicate_branch(site))
}

/// The `if` statements of a file whose branches are the same.
pub fn check_duplicate_branches(module: &Mod, source: &str, filepath: &str, package: &str) -> (r: Vec<Issue>)
    ensures
        issue_views(r@) == duplicate_branches(*module, site_of(source@, filepath@, package@)),
{
    let site = Site::new(source, filepath, package);
    let check = |v: &Visit| -> (r: Vec<Issue>)
        ensures
            issue_views(r@) == duplicate_branch(site@, v@),
        { duplicate_branch_issues(&site, v) };
    on_visits(module, statements(), check, Ghost(each_duplicate_branch(site@)))
}

// ── Dead code ───────────────────────────────────────────────────────────────

/// The place of the first statement of a body that always leaves it, or the body's
/// length.
pub open spec fn first_end(body: Seq<Stmt>) -> int
    decreases body.len(),
{
    if body.len() == 0 || ends_flow(&body[0]) {
        0
    } else {
        1 + first_end(body.skip(1))
    }
}

/// A statement that is never reached.
pub open spec fn unreachable_stmt(site: SiteView) -> spec_fn(Stmt) -> IssueView {
    |s: Stmt|
        report(
            site,
            range_start(stmt_range(&s)),
            Severity::Warning,
            "dead-code"@,
            "statement is unreachable — previous line always terminates"@,
        )
}

/// The statements of a body behind the first one that always leaves it.
pub open spec fn dead_in(site: SiteView, body: Seq<Stmt>) -> Seq<IssueView> {
    if first_end(body) < body.len() {
        body.skip(first_end(body) + 1).map_values(unreachable_stmt(site))
    } else {
        seq![]
    }
}

/// The dead statements in the handlers of a `try` statement.
pub open spec fn dead_in_handlers(site: SiteView, handlers: Seq<ExceptHandler>) -> Seq<IssueView>
    decreases handlers.len(),
{
    if handlers.len() == 0 {
        seq![]
    } else {
        dead_in_handlers(site, handlers.drop_last()) + match handlers.last() {
            ExceptHandler::ExceptHandler(h) => dead_in(site, h.body@),
        }
    }
}

/// The dead statements in the blocks that stand directly in a statement.
pub open spec fn dead_inside(site: SiteView, s: &Stmt) -> Seq<IssueView> {
    match s {
        Stmt::If(n) => dead_in(site, n.body@) + dead_in(site, n.orelse@),
        Stmt::For(n) => dead_in(site, n.body@) + dead_in(site, n.orelse@),
        Stmt::AsyncFor(n) => dead_in(site, n.body@) + dead_in(site, n.orelse@),
        Stmt::While(n) => dead_in(site, n.body@) + dead_in(site, n.orelse@),
        Stmt::Try(n) => dead_in(site, n.body@) + dead_in(site, n.orelse@) + dead_in_handlers(
            site,
            n.handlers@,
        ),
        Stmt::TryStar(n) => dead_in(site, n.body@) + dead_in(site, n.orelse@),
        Stmt::With(n) => dead_in(site, n.body@),
        Stmt::AsyncWith(n) => dead_in(site, n.body@),
        Stmt::FunctionDef(n) => dead_in(site, n.body@),
        Stmt::AsyncFunctionDef(n) => dead_in(site, n.body@),
        Stmt::ClassDef(n) => dead_in(site, n.body@),
        _ => seq![],
    }
}

/// `dead_inside`, as a relation.
pub open spec fn each_dead_inside(site: SiteView) -> spec_fn(Stmt) -> Seq<IssueView> {
    |s: Stmt| dead_inside(site, &s)
}

/// The dead statements in the body of a function and in the blocks directly in it.
pub open spec fn dead_function(site: SiteView, s: &Stmt) -> Seq<IssueView> {
    dead_in(site, def_body(s)) + def_body(s).flat_map(each_dead_inside(site))
}

fn scan_body_for_dead_code(site: &Site, body: &[Stmt], issues: &mut Vec<Issue>)
    ensures
        issue_views(final(issues)@) == issue_views(old(issues)@) + dead_in(site@, body@),
{
    let ghost f = unreachable_stmt(site@);
    let count: usize = body.len();
    let mut end: usize = 0;
    assert(body@.skip(0) =~= body@);
    while end < count && !is_unreachable_after(&body[end])
        invariant
            count == body@.len(),
            end <= count,
            first_end(body@) == end + first_end(body@.skip(end as int)),
        decreases count - end,
    {
        assert(body@.skip(end as int)[0] == body@[end as int]);
        assert(body@.skip(end as int).skip(1) =~= body@.skip(end + 1));
        end += 1;
    }
    if end == count {
        assert(issue_views(issues@) + seq![] =~= issue_views(issues@));
        return;
    }
    assert(body@.skip(end as int)[0] == body@[end as int]);
    let ghost rest = body@.skip(end + 1);
    let mut i: usize = end + 1;
    assert(issue_views(issues@) + rest.take(0).map_values(f) =~= issue_views(issues@));
    while i < count
        invariant
            count == body@.len(),
            end < i <= count,
            rest == body@.skip(end + 1),
            f == unreachable_stmt(site@),
            issue_views(issues@) == issue_views(old(issues)@) + rest.take(
                i - end - 1,
            ).map_values(f),
        decreases count - i,
    {
        let ghost before = issue_views(issues@);
        let start: u32 = stmt_start(&body[i]);
        push_issue(
            issues,
            site.report(
                start,
                Severity::Warning,
                "dead-code",
                "statement is unreachable — previous line always terminates".to_owned(),
            ),
        );
        proof {
            let k = i - end - 1;
            assert(rest[k] == body@[i as int]);
            assert(rest.take(k + 1).map_values(f) =~= rest.take(k).map_values(f) + seq![
                f(rest[k]),
            ]);
            assert(issue_views(issues@) =~= issue_views(old(issues)@) + rest.take(
                k + 1,
            ).map_values(f));
        }
        i += 1;
    }
    assert(rest.take(rest.len() as int) =~= rest);
}

fn scan_handlers_for_dead_code(site: &Site, handlers: &Vec<ExceptHandler>, issues: &mut Vec<Issue>)
    ensures
        issue_views(final(issues)@) == issue_views(old(issues)@) + dead_in_handlers(
            site@,
            handlers@,
        ),
{
    let mut i: usize = 0;
    assert(issue_views(issues@) + seq![] =~= issue_views(issues@));
    while i < handlers.len()
        invariant
            i <= handlers@.len(),
            issue_views(issues@) == issue_views(old(issues)@) + dead_in_handlers(
                site@,
                handlers@.take(i as int),
            ),
        decreases handlers@.len() - i,
    {
        let ghost before = issue_views(issues@);
        let ExceptHandler::ExceptHandler(h) = &handlers[i];
        scan_body_for_dead_code(site, h.body.as_slice(), issues);
        proof {
            assert(handlers@.take(i + 1).drop_last() =~= handlers@.take(i as int));
            assert(issue_views(issues@) =~= issue_views(old(issues)@) + (dead_in_handlers(
                site@,
                handlers@.take(i as int),
            ) + dead_in(site@, h.body@)));
        }
        i += 1;
    }
    assert(handlers@.take(i as int) =~= handlers@);
}

fn scan_two(site: &Site, first: &[Stmt], second: &[Stmt], issues: &mut Vec<Issue>)
    ensures
        issue_views(final(issues)@) == issue_views(old(issues)@) + (dead_in(site@, first@)
            + dead_in(site@, second@)),
{
    scan_body_for_dead_code(site, first, issues);
    scan_body_for_dead_code(site, second, issues);
    assert(issue_views(issues@) =~= issue_views(old(issues)@) + (dead_in(site@, first@) + dead_in(
        site@,
        second@,
    )));
}

fn scan_stmt_for_dead_code(site: &Site, stmt: &Stmt, issues: &mut Vec<Issue>)
    ensures
        issue_views(final(issues)@) == issue_views(old(issues)@) + dead_inside(site@, stmt),
{
    match stmt {
        Stmt::If(n) => scan_two(site, n.body.as_slice(), n.orelse.as_slice(), issues),
        Stmt::For(n) => scan_two(site, n.body.as_slice(), n.orelse.as_slice(), issues),
        Stmt::AsyncFor(n) => scan_two(site, n.body.as_slice(), n.orelse.as_slice(), issues),
        Stmt::While(n) => scan_two(site, n.body.as_slice(), n.orelse.as_slice(), issues),
        Stmt::Try(n) => {
            scan_two(site, n.body.as_slice(), n.orelse.as_slice(), issues);
            let ghost blocks = dead_in(site@, n.body@) + dead_in(site@, n.orelse@);
            scan_handlers_for_dead_code(site, &n.handlers, issues);
            assert(issue_views(issues@) =~= issue_views(old(issues)@) + (blocks + dead_in_handlers(
                site@,
                n.handlers@,
            )));
        },
        Stmt::TryStar(n) => scan_two(site, n.body.as_slice(), n.orelse.as_slice(), issues),
        Stmt::With(n) => scan_body_for_dead_code(site, n.body.as_slice(), issues),
        Stmt::AsyncWith(n) => scan_body_for_dead_code(site, n.body.as_slice(), issues),
        Stmt::FunctionDef(n) => scan_body_for_dead_code(site, n.body.as_slice(), issues),
        Stmt::AsyncFunctionDef(n) => scan_body_for_dead_code(site, n.body.as_slice(), issues),
        Stmt::ClassDef(n) => scan_body_for_dead_code(site, n.body.as_slice(), issues),
        _ => {
            assert(issue_views(issues@) + seq![] =~= issue_views(issues@));
        },
    }
}

fn dead_function_issues(site: &Site, func: &FuncNode) -> (r: Vec<Issue>)
    requires
        func.well_formed(),
    ensures
        issue_views(r@) == dead_function(site@, func.stmt),
{
    let body = func.body();
    let mut issues = none();
    scan_body_for_dead_code(site, body, &mut issues);
    let ghost own = dead_in(site@, body@);
    let ghost f = each_dead_inside(site@);
    let mut i: usize = 0;
    assert(issue_views(issues@) =~= own + body@.take(0).flat_map(f));
    while i < body.len()
        invariant
            i <= body@.len(),
            f == each_dead_inside(site@),
            issue_views(issues@) == own + body@.take(i as int).flat_map(f),
        decreases body@.len() - i,
    {
        proof {
            body@.lemma_flat_map_take_append(f, i as int);
        }
        scan_stmt_for_dead_code(site, &body[i], &mut issues);
        assert(issue_views(issues@) =~= own + body@.take(i + 1).flat_map(f));
        i += 1;
    }
    assert(body@.take(i as int) =~= body@);
    issues
}

/// `dead_function` for one function, as a relation.
pub open spec fn each_dead_function<'a>(site: SiteView) -> spec_fn(&'a Stmt) -> Seq<IssueView> {
    |s: &'a Stmt| dead_function(site, s)
}

/// The dead statements in the functions of a file.
pub open spec fn dead_code(module: Mod, site: SiteView) -> Seq<IssueView> {
    functions(body_of(module)).flat_map(each_dead_function(site))
}

/// The dead statements in the functions of a file.
pub fn check_dead_code(module: &Mod, source: &str, filepath: &str, package: &str) -> (r: Vec<Issue>)
    ensures
        issue_views(r@) == dead_code(*module, site_of(source@, filepath@, package@)),
{
    let site = Site::new(source, filepath, package);
    let check = |func: &FuncNode| -> (r: Vec<Issue>)
        requires
            func.well_formed(),
        ensures
            issue_views(r@) == dead_function(site@, func.stmt),
        { dead_function_issues(&site, func) };
    on_functions(module, check, Ghost(each_dead_function(site@)))
}

} // verus!
