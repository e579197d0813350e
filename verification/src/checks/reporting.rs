//! What it means that a check reports exactly what it looks for.

use crate::ast_helpers::{def_range, functions, is_def, line_in};
use crate::checks::common::SiteView;
use crate::definitions::law_functions_stand_in_the_body;
use crate::models::{IssueView, Severity};
use crate::order::lemma_flat_map_contains;
use crate::syntax::range_start;
use crate::walk::{outset, statements, walk_stmts, Node, Seen};
use crate::within::{
    handler_in, law_found_statements_stand_in, law_handlers_are_found, law_statements_are_found, reaches, stands_in,
};
use rustpython_ast::{ExceptHandlerExceptHandler, Stmt};
use vstd::prelude::*;

verus! {

/// Whether a finding stands at a byte offset of a file, and what it is. `head` is what its
/// message begins with.
pub open spec fn is_at(
    x: IssueView,
    site: SiteView,
    offset: u32,
    severity: Severity,
    rule: Seq<char>,
    head: Seq<char>,
) -> bool {
    &&& x.file == site.file
    &&& x.package == site.package
    &&& x.line == line_in(site.starts, offset as nat)
    &&& x.severity == severity
    &&& x.rule == rule
    &&& x.reason is None
    &&& head.is_prefix_of(x.message)
}

/// Whether there is such a finding.
pub open spec fn has_one_at(
    r: Seq<IssueView>,
    site: SiteView,
    offset: u32,
    severity: Severity,
    rule: Seq<char>,
    head: Seq<char>,
) -> bool {
    exists|i: int|
        0 <= i < r.len() && is_at(#[trigger] r[i], site, offset, severity, rule, head)
}

/// Whether findings are on the functions of a body for which `bad` holds, and on no others,
/// one on each. What they say follows from the function.
pub open spec fn is_on_functions(
    r: Seq<IssueView>,
    body: Seq<Stmt>,
    site: SiteView,
    bad: spec_fn(Stmt) -> bool,
    severity: spec_fn(Stmt) -> Severity,
    rule: Seq<char>,
    head: spec_fn(Stmt) -> Seq<char>,
) -> bool {
    &&& forall|s: Stmt| #[trigger]
        stands_in(body, s) && (s is FunctionDef || s is AsyncFunctionDef) && bad(s) ==> has_one_at(
            r,
            site,
            range_start(def_range(&s)),
            severity(s),
            rule,
            head(s),
        )
    &&& forall|i: int|
        0 <= i < r.len() ==> is_on_a_function(
            #[trigger] r[i],
            body,
            site,
            bad,
            severity,
            rule,
            head,
        )
    &&& r.len() <= functions(body).len()
}

/// Whether a finding is on such a function.
pub open spec fn is_on_a_function(
    x: IssueView,
    body: Seq<Stmt>,
    site: SiteView,
    bad: spec_fn(Stmt) -> bool,
    severity: spec_fn(Stmt) -> Severity,
    rule: Seq<char>,
    head: spec_fn(Stmt) -> Seq<char>,
) -> bool {
    exists|s: Stmt| #[trigger]
        stands_in(body, s) && (s is FunctionDef || s is AsyncFunctionDef) && bad(s) && is_at(
            x,
            site,
            range_start(def_range(&s)),
            severity(s),
            rule,
            head(s),
        )
}

/// Whether a check of one function finds what is asked for.
pub open spec fn finds_function<'a>(
    f: spec_fn(&'a Stmt) -> Seq<IssueView>,
    site: SiteView,
    bad: spec_fn(Stmt) -> bool,
    severity: spec_fn(Stmt) -> Severity,
    rule: Seq<char>,
    head: spec_fn(Stmt) -> Seq<char>,
) -> bool {
    forall|s: &'a Stmt|
        is_def(s) ==> if bad(*s) {
            (#[trigger] f(s)).len() == 1 && is_at(
                f(s)[0],
                site,
                range_start(def_range(s)),
                severity(*s),
                rule,
                head(*s),
            )
        } else {
            f(s).len() == 0
        }
}

proof fn lemma_at_most_one<A, B>(s: Seq<A>, f: spec_fn(A) -> Seq<B>)
    requires
        forall|i: int| 0 <= i < s.len() ==> f(#[trigger] s[i]).len() <= 1,
    ensures
        s.flat_map(f).len() <= s.len(),
    decreases s.len(),
{
    if s.len() == 0 {
        assert(s.flat_map(f) =~= seq![]);
    } else {
        let rest = s.drop_last();
        assert forall|i: int| 0 <= i < rest.len() implies f(#[trigger] rest[i]).len() <= 1 by {
            assert(rest[i] == s[i]);
        }
        lemma_at_most_one(rest, f);
        rest.lemma_flat_map_push(f, s.last());
        assert(s =~= rest.push(s.last()));
        assert(f(s[s.len() - 1]).len() <= 1);
    }
}

/// A check of each function of a body reports exactly what the check of one finds.
pub proof fn lemma_on_functions<'a>(
    body: Seq<Stmt>,
    f: spec_fn(&'a Stmt) -> Seq<IssueView>,
    site: SiteView,
    bad: spec_fn(Stmt) -> bool,
    severity: spec_fn(Stmt) -> Severity,
    rule: Seq<char>,
    head: spec_fn(Stmt) -> Seq<char>,
)
    requires
        finds_function(f, site, bad, severity, rule, head),
    ensures
        is_on_functions(functions(body).flat_map(f), body, site, bad, severity, rule, head),
{
    let all: Seq<&'a Stmt> = functions(body);
    let r = all.flat_map(f);
    assert forall|s: Stmt| #[trigger]
        stands_in(body, s) && (s is FunctionDef || s is AsyncFunctionDef) && bad(
            s,
        ) implies has_one_at(r, site, range_start(def_range(&s)), severity(s), rule, head(s)) by {
        law_functions_stand_in_the_body(body, &s);
        let k = all.index_of(&s);
        let x = f(&s)[0];
        assert(f(all[k]).contains(x));
        lemma_flat_map_contains(all, f, x);
        let i = r.index_of(x);
        assert(is_at(r[i], site, range_start(def_range(&s)), severity(s), rule, head(s)));
    }
    assert forall|i: int| 0 <= i < r.len() implies is_on_a_function(
        #[trigger] r[i],
        body,
        site,
        bad,
        severity,
        rule,
        head,
    ) by {
        assert(r.contains(r[i]));
        lemma_flat_map_contains(all, f, r[i]);
        let k = choose|k: int| 0 <= k < all.len() && f(#[trigger] all[k]).contains(r[i]);
        assert(all.contains(all[k]));
        law_functions_stand_in_the_body(body, all[k]);
        let s = *all[k];
        assert(f(&s)[0] == r[i]);
        assert(stands_in(body, s));
    }
    assert forall|i: int| 0 <= i < all.len() implies f(#[trigger] all[i]).len() <= 1 by {
        assert(all.contains(all[i]));
        law_functions_stand_in_the_body(body, all[i]);
    }
    lemma_at_most_one(all, f);
}

/// Whether findings are on the statements of a body for which `bad` holds, and on no others.
pub open spec fn is_on_statements(
    r: Seq<IssueView>,
    body: Seq<Stmt>,
    site: SiteView,
    bad: spec_fn(Stmt) -> bool,
    place: spec_fn(Stmt) -> u32,
    severity: spec_fn(Stmt) -> Severity,
    rule: Seq<char>,
    head: spec_fn(Stmt) -> Seq<char>,
) -> bool {
    &&& forall|s: Stmt| #[trigger]
        stands_in(body, s) && bad(s) ==> has_one_at(r, site, place(s), severity(s), rule, head(s))
    &&& forall|i: int|
        0 <= i < r.len() ==> is_on_a_statement(
            #[trigger] r[i],
            body,
            site,
            bad,
            place,
            severity,
            rule,
            head,
        )
}

/// Whether a finding is on such a statement.
pub open spec fn is_on_a_statement(
    x: IssueView,
    body: Seq<Stmt>,
    site: SiteView,
    bad: spec_fn(Stmt) -> bool,
    place: spec_fn(Stmt) -> u32,
    severity: spec_fn(Stmt) -> Severity,
    rule: Seq<char>,
    head: spec_fn(Stmt) -> Seq<char>,
) -> bool {
    exists|s: Stmt| #[trigger]
        stands_in(body, s) && bad(s) && is_at(x, site, place(s), severity(s), rule, head(s))
}

/// Whether a check of one visit finds what is asked for of statements.
pub open spec fn finds_statement<'a>(
    f: spec_fn(Seen<'a>) -> Seq<IssueView>,
    site: SiteView,
    bad: spec_fn(Stmt) -> bool,
    place: spec_fn(Stmt) -> u32,
    severity: spec_fn(Stmt) -> Severity,
    rule: Seq<char>,
    head: spec_fn(Stmt) -> Seq<char>,
) -> bool {
    forall|v: Seen<'a>|
        match v.node {
            Node::Stmt(s) => if bad(*s) {
                (#[trigger] f(v)).len() == 1 && is_at(
                    f(v)[0],
                    site,
                    place(*s),
                    severity(*s),
                    rule,
                    head(*s),
                )
            } else {
                f(v).len() == 0
            },
            _ => f(v).len() == 0,
        }
}

/// A check of each statement of a body reports exactly what the check of one finds.
pub proof fn lemma_on_statements<'a>(
    body: Seq<Stmt>,
    f: spec_fn(Seen<'a>) -> Seq<IssueView>,
    site: SiteView,
    bad: spec_fn(Stmt) -> bool,
    place: spec_fn(Stmt) -> u32,
    severity: spec_fn(Stmt) -> Severity,
    rule: Seq<char>,
    head: spec_fn(Stmt) -> Seq<char>,
)
    requires
        finds_statement(f, site, bad, place, severity, rule, head),
    ensures
        is_on_statements(
            walk_stmts(body, statements(), outset()).flat_map(f),
            body,
            site,
            bad,
            place,
            severity,
            rule,
            head,
        ),
{
    let all: Seq<Seen<'a>> = walk_stmts(body, statements(), outset());
    let r = all.flat_map(f);
    assert forall|s: Stmt| #[trigger] stands_in(body, s) && bad(s) implies has_one_at(
        r,
        site,
        place(s),
        severity(s),
        rule,
        head(s),
    ) by {
        law_statements_are_found(body, &s);
        let k = choose|k: int| 0 <= k < all.len() && (#[trigger] all[k]).node == Node::Stmt(&s);
        let x = f(all[k])[0];
        assert(f(all[k]).contains(x));
        lemma_flat_map_contains(all, f, x);
        let i = r.index_of(x);
        assert(is_at(r[i], site, place(s), severity(s), rule, head(s)));
    }
    assert forall|i: int| 0 <= i < r.len() implies is_on_a_statement(
        #[trigger] r[i],
        body,
        site,
        bad,
        place,
        severity,
        rule,
        head,
    ) by {
        assert(r.contains(r[i]));
        lemma_flat_map_contains(all, f, r[i]);
        let k = choose|k: int| 0 <= k < all.len() && f(#[trigger] all[k]).contains(r[i]);
        assert(f(all[k]).len() == 1);
        match all[k].node {
            Node::Stmt(s) => {
                assert(reaches(all, Node::Stmt(s)));
                law_found_statements_stand_in(body, statements(), s);
                assert(f(all[k])[0] == r[i]);
                assert(stands_in(body, *s));
            },
            _ => {},
        }
    }
}

/// Whether findings are on the exception handlers of a body for which `bad` holds, and on no
/// others.
pub open spec fn is_on_handlers(
    r: Seq<IssueView>,
    body: Seq<Stmt>,
    site: SiteView,
    bad: spec_fn(ExceptHandlerExceptHandler) -> bool,
    severity: Severity,
    rule: Seq<char>,
    head: spec_fn(ExceptHandlerExceptHandler) -> Seq<char>,
) -> bool {
    &&& forall|h: ExceptHandlerExceptHandler| #[trigger]
        handler_in(body, h) && bad(h) ==> has_one_at(
            r,
            site,
            range_start(h.range),
            severity,
            rule,
            head(h),
        )
    &&& forall|i: int|
        0 <= i < r.len() ==> is_on_a_handler(
            #[trigger] r[i],
            body,
            site,
            bad,
            severity,
            rule,
            head,
        )
}

/// Whether a finding is on such a handler.
pub open spec fn is_on_a_handler(
    x: IssueView,
    body: Seq<Stmt>,
    site: SiteView,
    bad: spec_fn(ExceptHandlerExceptHandler) -> bool,
    severity: Severity,
    rule: Seq<char>,
    head: spec_fn(ExceptHandlerExceptHandler) -> Seq<char>,
) -> bool {
    exists|h: ExceptHandlerExceptHandler| #[trigger]
        reaches(walk_stmts(body, statements(), outset()), Node::Handler(&h)) && bad(h) && is_at(
            x,
            site,
            range_start(h.range),
            severity,
            rule,
            head(h),
        )
}

/// Whether a check of one visit finds what is asked for of handlers.
pub open spec fn finds_handler<'a>(
    f: spec_fn(Seen<'a>) -> Seq<IssueView>,
    site: SiteView,
    bad: spec_fn(ExceptHandlerExceptHandler) -> bool,
    severity: Severity,
    rule: Seq<char>,
    head: spec_fn(ExceptHandlerExceptHandler) -> Seq<char>,
) -> bool {
    forall|v: Seen<'a>|
        match v.node {
            Node::Handler(h) => if bad(*h) {
                (#[trigger] f(v)).len() == 1 && is_at(
                    f(v)[0],
                    site,
                    range_start(h.range),
                    severity,
                    rule,
                    head(*h),
                )
            } else {
                f(v).len() == 0
            },
            _ => f(v).len() == 0,
        }
}

/// A check of each handler of a body reports exactly what the check of one finds.
pub proof fn lemma_on_handlers<'a>(
    body: Seq<Stmt>,
    f: spec_fn(Seen<'a>) -> Seq<IssueView>,
    site: SiteView,
    bad: spec_fn(ExceptHandlerExceptHandler) -> bool,
    severity: Severity,
    rule: Seq<char>,
    head: spec_fn(ExceptHandlerExceptHandler) -> Seq<char>,
)
    requires
        finds_handler(f, site, bad, severity, rule, head),
    ensures
        is_on_handlers(
            walk_stmts(body, statements(), outset()).flat_map(f),
            body,
            site,
            bad,
            severity,
            rule,
            head,
        ),
{
    let all: Seq<Seen<'a>> = walk_stmts(body, statements(), outset());
    let r = all.flat_map(f);
    assert forall|h: ExceptHandlerExceptHandler| #[trigger]
        handler_in(body, h) && bad(h) implies has_one_at(
        r,
        site,
        range_start(h.range),
        severity,
        rule,
        head(h),
    ) by {
        law_handlers_are_found(body, &h);
        let k = choose|k: int| 0 <= k < all.len() && (#[trigger] all[k]).node == Node::Handler(&h);
        let x = f(all[k])[0];
        assert(f(all[k]).contains(x));
        lemma_flat_map_contains(all, f, x);
        let i = r.index_of(x);
        assert(is_at(r[i], site, range_start(h.range), severity, rule, head(h)));
    }
    assert forall|i: int| 0 <= i < r.len() implies is_on_a_handler(
        #[trigger] r[i],
        body,
        site,
        bad,
        severity,
        rule,
        head,
    ) by {
        assert(r.contains(r[i]));
        lemma_flat_map_contains(all, f, r[i]);
        let k = choose|k: int| 0 <= k < all.len() && f(#[trigger] all[k]).contains(r[i]);
        assert(f(all[k]).len() == 1);
        match all[k].node {
            Node::Handler(h) => {
                assert(f(all[k])[0] == r[i]);
                assert(reaches(all, Node::Handler(h)));
            },
            _ => {},
        }
    }
}

} // verus!
