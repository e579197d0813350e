//! What the checks of a file share: where they report, and the statements of a
//! module.

use crate::ast_helpers::{
    collect_functions, func_stmts, functions, line_in, line_starts, FuncNode, LineIndex,
};
use crate::models::{append_issues, finding, issue, issue_views, Issue, IssueView, Severity};
use crate::walk::{outset, seen, visits, walk_stmts, Coverage, Seen, Visit};
use rustpython_ast::{Mod, Stmt};
use vstd::prelude::*;
use vstd::utf8::encode_utf8;

verus! {

/// The statements of a module.
pub open spec fn body_of(module: Mod) -> Seq<Stmt> {
    match module {
        Mod::Module(m) => m.body@,
        _ => seq![],
    }
}

/// The statements of a module.
pub fn module_body(module: &Mod) -> (r: &[Stmt])
    ensures
        r@ == body_of(*module),
{
    match module {
        Mod::Module(m) => m.body.as_slice(),
        _ => {
            let none: &[Stmt] = &[];
            assert(none@ =~= seq![]);
            none
        },
    }
}

/// Where the findings of a file are reported: the beginnings of its lines, its path
/// and its package.
pub struct SiteView {
    pub starts: Seq<nat>,
    pub file: Seq<char>,
    pub package: Seq<char>,
}

/// Where the findings of a file are reported.
pub open spec fn site_of(source: Seq<char>, file: Seq<char>, package: Seq<char>) -> SiteView {
    SiteView { starts: line_starts(encode_utf8(source)), file, package }
}

/// A finding at a byte offset of a file.
pub open spec fn report(
    site: SiteView,
    offset: u32,
    severity: Severity,
    rule: Seq<char>,
    message: Seq<char>,
) -> IssueView {
    finding(site.file, line_in(site.starts, offset as nat), severity, rule, site.package, message)
}

/// Where the findings of a file are reported.
pub struct Site<'a> {
    pub index: LineIndex,
    pub file: &'a str,
    pub package: &'a str,
}

impl<'a> Site<'a> {
    pub open spec fn view(&self) -> SiteView {
        SiteView { starts: self.index@, file: self.file@, package: self.package@ }
    }

    /// Where the findings of a file are reported.
    pub fn new(source: &str, file: &'a str, package: &'a str) -> (r: Self)
        ensures
            r@ == site_of(source@, file@, package@),
    {
        Site { index: LineIndex::new(source), file, package }
    }

    /// A finding at a byte offset.
    pub fn report(
        &self,
        offset: u32,
        severity: Severity,
        rule: &'static str,
        message: String,
    ) -> (r: Issue)
        ensures
            r@ == report(self@, offset, severity, rule@, message@),
    {
        issue(self.file, self.index.line_number(offset), severity, rule, self.package, message)
    }
}

/// No finding.
pub fn none() -> (r: Vec<Issue>)
    ensures
        issue_views(r@) == Seq::<IssueView>::empty(),
{
    let v: Vec<Issue> = Vec::new();
    assert(issue_views(v@) =~= seq![]);
    v
}

/// One finding.
pub fn one(x: Issue) -> (r: Vec<Issue>)
    ensures
        issue_views(r@) == seq![x@],
{
    let mut v: Vec<Issue> = Vec::new();
    v.push(x);
    assert(issue_views(v@) =~= seq![x@]);
    v
}

// ── Findings one by one ─────────────────────────────────────────────────────

/// The findings of `check` on each element of a list, one after the other. `view` is what
/// an element stands for and `rel` the findings on what it stands for.
pub(crate) fn gather<T, A, F: Fn(&T) -> Vec<Issue>>(
    items: &Vec<T>,
    check: F,
    Ghost(view): Ghost<spec_fn(T) -> A>,
    Ghost(rel): Ghost<spec_fn(A) -> Seq<IssueView>>,
) -> (r: Vec<Issue>)
    requires
        forall|i: int|
            0 <= i < items@.len() ==> call_requires(check, (&#[trigger] items@[i],)),
        forall|i: int, found: Vec<Issue>|
            0 <= i < items@.len() && #[trigger] call_ensures(check, (&items@[i],), found)
                ==> issue_views(found@) == rel(view(items@[i])),
    ensures
        issue_views(r@) == items@.map_values(view).flat_map(rel),
{
    let ghost all = items@.map_values(view);
    let mut issues = none();
    let mut i: usize = 0;
    assert(issue_views(issues@) =~= all.take(0).flat_map(rel));
    while i < items.len()
        invariant
            i <= items@.len(),
            all == items@.map_values(view),
            forall|k: int|
                0 <= k < items@.len() ==> call_requires(check, (&#[trigger] items@[k],)),
            forall|k: int, found: Vec<Issue>|
                0 <= k < items@.len() && #[trigger] call_ensures(check, (&items@[k],), found)
                    ==> issue_views(found@) == rel(view(items@[k])),
            issue_views(issues@) == all.take(i as int).flat_map(rel),
        decreases items@.len() - i,
    {
        proof {
            all.lemma_flat_map_take_append(rel, i as int);
            assert(all[i as int] == view(items@[i as int]));
        }
        append_issues(&mut issues, check(&items[i]));
        i += 1;
    }
    assert(all.take(i as int) =~= all);
    issues
}

/// The findings of `check` on each function of a module. `rel` says what they are.
pub(crate) fn on_functions<'a, F: Fn(&FuncNode<'a>) -> Vec<Issue>>(
    module: &'a Mod,
    check: F,
    Ghost(rel): Ghost<spec_fn(&'a Stmt) -> Seq<IssueView>>,
) -> (r: Vec<Issue>)
    requires
        forall|func: &FuncNode<'a>| func.well_formed() ==> #[trigger] call_requires(check, (func,)),
        forall|func: &FuncNode<'a>, found: Vec<Issue>| #[trigger]
            call_ensures(check, (func,), found) ==> issue_views(found@) == rel(func.stmt),
    ensures
        issue_views(r@) == functions(body_of(*module)).flat_map(rel),
{
    let funcs = collect_functions(module_body(module));
    let ghost view = |f: FuncNode<'a>| f.stmt;
    assert(funcs@.map_values(view) =~= func_stmts(funcs@));
    gather::<FuncNode<'a>, &'a Stmt, F>(&funcs, check, Ghost(view), Ghost(rel))
}

/// The findings of `check` on each of a list of visits. `rel` says what they are.
pub(crate) fn on_each<'a, F: Fn(&Visit<'a>) -> Vec<Issue>>(
    all: &Vec<Visit<'a>>,
    check: F,
    Ghost(rel): Ghost<spec_fn(Seen<'a>) -> Seq<IssueView>>,
) -> (r: Vec<Issue>)
    requires
        forall|v: &Visit<'a>| #[trigger] call_requires(check, (v,)),
        forall|v: &Visit<'a>, found: Vec<Issue>| #[trigger]
            call_ensures(check, (v,), found) ==> issue_views(found@) == rel(v@),
    ensures
        issue_views(r@) == seen(all@).flat_map(rel),
{
    let ghost view = |v: Visit<'a>| v@;
    assert(all@.map_values(view) =~= seen(all@));
    gather::<Visit<'a>, Seen<'a>, F>(all, check, Ghost(view), Ghost(rel))
}

/// The findings of `check` on each visit of a walk through a module. `rel` says what they
/// are.
pub(crate) fn on_visits<'a, F: Fn(&Visit<'a>) -> Vec<Issue>>(
    module: &'a Mod,
    c: Coverage,
    check: F,
    Ghost(rel): Ghost<spec_fn(Seen<'a>) -> Seq<IssueView>>,
) -> (r: Vec<Issue>)
    requires
        forall|v: &Visit<'a>| #[trigger] call_requires(check, (v,)),
        forall|v: &Visit<'a>, found: Vec<Issue>| #[trigger]
            call_ensures(check, (v,), found) ==> issue_views(found@) == rel(v@),
    ensures
        issue_views(r@) == walk_stmts(body_of(*module), c, outset()).flat_map(rel),
{
    on_each(&visits(module_body(module), c), check, Ghost(rel))
}

} // verus!
