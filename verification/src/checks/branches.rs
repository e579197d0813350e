//! Which handlers, branches and statements the checks of control flow report.

use crate::ast_helpers::{def_body, functions, law_dumps_tell_blocks_apart, stmt_range};
use crate::checks::common::{body_of, SiteView};
use crate::checks::flow::{
    bare_handlers, dead_code, dead_function, dead_in, dead_in_handlers, dead_inside,
    duplicate_branches, each_bare_handler, each_dead_function, each_dead_inside,
    each_duplicate_branch, each_missing_else, each_swallowed, ends_flow, first_end, hands_on,
    missing_elses, swallowed_exceptions, updates_state,
};
use crate::checks::limits::always;
use crate::checks::reporting::{
    finds_handler, finds_statement, has_one_at, is_at, is_on_handlers, is_on_statements,
    lemma_on_handlers, lemma_on_statements,
};
use crate::definitions::law_functions_stand_in_the_body;
use crate::models::{IssueView, Severity};
use crate::order::lemma_flat_map_contains;
use crate::structure::block_shape;
use crate::syntax::{identifier_text, range_start};
use crate::text::dec;
use crate::walk::{Node, Seen};
use crate::within::stands_in;
use rustpython_ast::{ExceptHandler, ExceptHandlerExceptHandler, Expr, Mod, Stmt};
use vstd::prelude::*;
use vstd::string::*;

verus! {

/// Handlers that name no exception.
pub open spec fn names_nothing() -> spec_fn(ExceptHandlerExceptHandler) -> bool {
    |h: ExceptHandlerExceptHandler| h.type_ is None
}

pub open spec fn bare_told() -> spec_fn(ExceptHandlerExceptHandler) -> Seq<char> {
    |h: ExceptHandlerExceptHandler| "Bare except clause — catch specific exceptions instead"@
}

/// The handlers of a file that name no exception are reported, and no others.
pub proof fn law_bare_handlers_are_reported(module: Mod, site: SiteView)
    ensures
        is_on_handlers(
            bare_handlers(module, site),
            body_of(module),
            site,
            names_nothing(),
            Severity::Warning,
            "bare-except"@,
            bare_told(),
        ),
{
    let f = each_bare_handler(site);
    assert(finds_handler(
        f,
        site,
        names_nothing(),
        Severity::Warning,
        "bare-except"@,
        bare_told(),
    ));
    lemma_on_handlers(
        body_of(module),
        f,
        site,
        names_nothing(),
        Severity::Warning,
        "bare-except"@,
        bare_told(),
    );
}

/// Handlers whose body is a single `pass` or `...`.
pub open spec fn discards() -> spec_fn(ExceptHandlerExceptHandler) -> bool {
    |h: ExceptHandlerExceptHandler|
        h.body@.len() == 1 && match h.body@[0] {
            Stmt::Pass(_) => true,
            Stmt::Expr(e) => *e.value matches Expr::Constant(c) && c.value is Ellipsis,
            _ => false,
        }
}

pub open spec fn discarded_told() -> spec_fn(ExceptHandlerExceptHandler) -> Seq<char> {
    |h: ExceptHandlerExceptHandler|
        "except "@ + match h.type_ {
            Some(t) => match *t {
                Expr::Name(n) => identifier_text(n.id),
                _ => "Exception"@,
            },
            None => "Exception"@,
        }
}

/// The handlers of a file that do nothing but `pass` or `...` are reported, and no others.
pub proof fn law_swallowed_exceptions_are_reported(module: Mod, site: SiteView)
    ensures
        is_on_handlers(
            swallowed_exceptions(module, site),
            body_of(module),
            site,
            discards(),
            Severity::Warning,
            "swallowed-exception"@,
            discarded_told(),
        ),
{
    let f = each_swallowed(site);
    assert forall|v: Seen|
        match v.node {
            Node::Handler(h) => if discards()(*h) {
                (#[trigger] f(v)).len() == 1 && is_at(
                    f(v)[0],
                    site,
                    range_start(h.range),
                    Severity::Warning,
                    "swallowed-exception"@,
                    discarded_told()(*h),
                )
            } else {
                f(v).len() == 0
            },
            _ => f(v).len() == 0,
        } by {
        if let Node::Handler(h) = v.node {
            if discards()(*h) {
                let head = discarded_told()(*h);
                assert(f(v).len() == 1);
                assert(f(v)[0].message.take(head.len() as int) =~= head);
            }
        }
    }
    assert(finds_handler(
        f,
        site,
        discards(),
        Severity::Warning,
        "swallowed-exception"@,
        discarded_told(),
    ));
    lemma_on_handlers(
        body_of(module),
        f,
        site,
        discards(),
        Severity::Warning,
        "swallowed-exception"@,
        discarded_told(),
    );
}

/// Whether an expression is an attribute or a subscript.
pub open spec fn is_stored_state(e: Expr) -> bool {
    e is Attribute || e is Subscript
}

/// Whether the last statement of a block shows that nothing is to be done elsewhere: it
/// leaves the block, is a loop, an `if` without an `else`, a call or a `yield` whose value is
/// dropped, or assigns to nothing but attributes and subscripts.
pub open spec fn closes_a_block(s: Stmt) -> bool {
    match s {
        Stmt::Return(_) | Stmt::Raise(_) | Stmt::Break(_) | Stmt::Continue(_) => true,
        Stmt::For(_) | Stmt::AsyncFor(_) | Stmt::While(_) => true,
        Stmt::If(n) => n.orelse@.len() == 0,
        Stmt::Expr(e) => *e.value is Call || *e.value is Yield || *e.value is YieldFrom,
        Stmt::Assign(n) => n.targets@.len() > 0 && forall|i: int|
            0 <= i < n.targets@.len() ==> is_stored_state(#[trigger] n.targets@[i]),
        Stmt::AugAssign(n) => is_stored_state(*n.target),
        Stmt::AnnAssign(n) => is_stored_state(*n.target),
        _ => false,
    }
}

/// An `if` without an `else`, of at least so many statements, the last of which does not close
/// the block.
pub open spec fn lacks_a_negative_path(least: nat) -> spec_fn(Stmt) -> bool {
    |s: Stmt|
        s matches Stmt::If(n) && n.orelse@.len() == 0 && n.body@.len() >= least && !closes_a_block(
            n.body@.last(),
        )
}

/// Where a statement begins.
pub open spec fn at_start() -> spec_fn(Stmt) -> u32 {
    |s: Stmt| range_start(stmt_range(&s))
}

pub open spec fn else_told() -> spec_fn(Stmt) -> Seq<char> {
    |s: Stmt|
        match s {
            Stmt::If(n) => "'if' block has "@ + dec(n.body@.len())
                + " statements but no else/elif — missing the negative path"@,
            _ => seq![],
        }
}

proof fn lemma_closing(s: Stmt)
    ensures
        closes_a_block(s) == (ends_flow(&s) || hands_on(&s) || updates_state(&s)),
{
    if let Stmt::Assign(n) = s {
        assert forall|i: int| 0 <= i < n.targets@.len() implies crate::checks::flow::is_state(
            &#[trigger] n.targets@[i],
        ) == is_stored_state(n.targets@[i]) by {}
    }
}

/// The `if` statements of a file without an `else`, of at least two statements, the last of
/// which does not close the block, are reported, and no others.
pub proof fn law_missing_elses_are_reported(module: Mod, site: SiteView)
    ensures
        is_on_statements(
            missing_elses(module, site),
            body_of(module),
            site,
            lacks_a_negative_path(2),
            at_start(),
            always(Severity::Info),
            "missing-else"@,
            else_told(),
        ),
{
    let f = each_missing_else(site);
    let bad = lacks_a_negative_path(2);
    assert forall|v: Seen|
        match v.node {
            Node::Stmt(s) => if bad(*s) {
                (#[trigger] f(v)).len() == 1 && is_at(
                    f(v)[0],
                    site,
                    at_start()(*s),
                    always(Severity::Info)(*s),
                    "missing-else"@,
                    else_told()(*s),
                )
            } else {
                f(v).len() == 0
            },
            _ => f(v).len() == 0,
        } by {
        if let Node::Stmt(s) = v.node {
            if let Stmt::If(n) = s {
                lemma_closing(n.body@.last());
                if bad(*s) {
                    let head = else_told()(*s);
                    assert(f(v)[0].message.take(head.len() as int) =~= head);
                }
            }
        }
    }
    assert(finds_statement(
        f,
        site,
        bad,
        at_start(),
        always(Severity::Info),
        "missing-else"@,
        else_told(),
    ));
    lemma_on_statements(
        body_of(module),
        f,
        site,
        bad,
        at_start(),
        always(Severity::Info),
        "missing-else"@,
        else_told(),
    );
}

/// An `if` whose two branches have the same structure, where the second is no `elif`.
pub open spec fn has_equal_branches() -> spec_fn(Stmt) -> bool {
    |s: Stmt|
        s matches Stmt::If(n) && n.body@.len() > 0 && n.orelse@.len() > 0 && !(n.orelse@.len() == 1
            && n.orelse@[0] is If) && block_shape(n.body@) == block_shape(n.orelse@)
}

pub open spec fn branches_told() -> spec_fn(Stmt) -> Seq<char> {
    |s: Stmt| "if/else branches are structurally identical — the condition has no effect"@
}

/// The `if` statements of a file whose two branches have the same structure are reported, and
/// no others.
pub proof fn law_equal_branches_are_reported(module: Mod, site: SiteView)
    ensures
        is_on_statements(
            duplicate_branches(module, site),
            body_of(module),
            site,
            has_equal_branches(),
            at_start(),
            always(Severity::Warning),
            "duplicate-branch"@,
            branches_told(),
        ),
{
    let f = each_duplicate_branch(site);
    let bad = has_equal_branches();
    assert forall|v: Seen|
        match v.node {
            Node::Stmt(s) => if bad(*s) {
                (#[trigger] f(v)).len() == 1 && is_at(
                    f(v)[0],
                    site,
                    at_start()(*s),
                    always(Severity::Warning)(*s),
                    "duplicate-branch"@,
                    branches_told()(*s),
                )
            } else {
                f(v).len() == 0
            },
            _ => f(v).len() == 0,
        } by {
        if let Node::Stmt(s) = v.node {
            if let Stmt::If(n) = s {
                law_dumps_tell_blocks_apart(n.body@, n.orelse@);
            }
        }
    }
    assert(finds_statement(
        f,
        site,
        bad,
        at_start(),
        always(Severity::Warning),
        "duplicate-branch"@,
        branches_told(),
    ));
    lemma_on_statements(
        body_of(module),
        f,
        site,
        bad,
        at_start(),
        always(Severity::Warning),
        "duplicate-branch"@,
        branches_told(),
    );
}

// ── Dead code ───────────────────────────────────────────────────────────────

/// Whether a statement of a block stands behind one that always leaves the block.
pub open spec fn is_behind_an_end(block: Seq<Stmt>, k: int) -> bool {
    exists|i: int|
        0 <= i < k && ((#[trigger] block[i]) is Return || block[i] is Raise || block[i] is Break
            || block[i] is Continue)
}

proof fn lemma_first_end(block: Seq<Stmt>)
    ensures
        0 <= first_end(block) <= block.len(),
        first_end(block) < block.len() ==> ends_flow(&block[first_end(block)]),
        forall|i: int| 0 <= i < first_end(block) ==> !ends_flow(&#[trigger] block[i]),
    decreases block.len(),
{
    if block.len() > 0 && !ends_flow(&block[0]) {
        lemma_first_end(block.skip(1));
        assert forall|i: int| 0 <= i < first_end(block) implies !ends_flow(&#[trigger] block[i]) by {
            if i > 0 {
                assert(block.skip(1)[i - 1] == block[i]);
            }
        }
    }
}

/// The statements of a block that stand behind one that always leaves it, and no others, are
/// dead, in order.
pub proof fn law_dead_statements_stand_behind_an_end(site: SiteView, block: Seq<Stmt>) -> (from:
    int)
    ensures
        0 <= from <= block.len(),
        dead_in(site, block).len() == block.len() - from,
        forall|k: int|
            0 <= k < block.len() ==> (#[trigger] is_behind_an_end(block, k) <==> k >= from),
        forall|k: int|
            from <= k < block.len() ==> is_at(
                dead_in(site, block)[k - from],
                site,
                range_start(stmt_range(&#[trigger] block[k])),
                Severity::Warning,
                "dead-code"@,
                dead_told(),
            ),
{
    lemma_first_end(block);
    let e = first_end(block);
    let from: int = if e < block.len() {
        e + 1
    } else {
        block.len() as int
    };
    assert forall|k: int| 0 <= k < block.len() implies (#[trigger] is_behind_an_end(block, k) <==> k
        >= from) by {
        if k >= from {
            assert(block[e] is Return || block[e] is Raise || block[e] is Break || block[e]
                is Continue);
        }
        if is_behind_an_end(block, k) {
            let i = choose|i: int|
                0 <= i < k && ((#[trigger] block[i]) is Return || block[i] is Raise || block[i]
                    is Break || block[i] is Continue);
            assert(ends_flow(&block[i]));
        }
    }
    assert(dead_told().is_prefix_of(dead_told()));
    assert forall|k: int| from <= k < block.len() implies is_at(
        dead_in(site, block)[k - from],
        site,
        range_start(stmt_range(&#[trigger] block[k])),
        Severity::Warning,
        "dead-code"@,
        dead_told(),
    ) by {
        assert(block.skip(e + 1)[k - from] == block[k]);
    }
    from
}

/// What findings on dead code say.
pub open spec fn dead_told() -> Seq<char> {
    "statement is unreachable — previous line always terminates"@
}

/// Whether a block stands directly in a statement, and is looked into for dead code: all but
/// the `finally` of a `try`, the handlers of an `except*` and the cases of a `match`.
pub open spec fn is_looked_into(s: Stmt, block: Seq<Stmt>) -> bool {
    match s {
        Stmt::If(n) => block == n.body@ || block == n.orelse@,
        Stmt::For(n) => block == n.body@ || block == n.orelse@,
        Stmt::AsyncFor(n) => block == n.body@ || block == n.orelse@,
        Stmt::While(n) => block == n.body@ || block == n.orelse@,
        Stmt::Try(n) => block == n.body@ || block == n.orelse@ || crate::within::handles(
            n.handlers@,
            block,
        ),
        Stmt::TryStar(n) => block == n.body@ || block == n.orelse@,
        Stmt::With(n) => block == n.body@,
        Stmt::AsyncWith(n) => block == n.body@,
        Stmt::FunctionDef(n) => block == n.body@,
        Stmt::AsyncFunctionDef(n) => block == n.body@,
        Stmt::ClassDef(n) => block == n.body@,
        _ => false,
    }
}

/// Whether a block is the body of a function, or stands directly in a statement of it.
pub open spec fn is_block_of(f: Stmt, block: Seq<Stmt>) -> bool {
    block == def_body(&f) || exists|i: int|
        0 <= i < def_body(&f).len() && is_looked_into(#[trigger] def_body(&f)[i], block)
}

proof fn lemma_dead_in_handlers(
    site: SiteView,
    handlers: Seq<ExceptHandler>,
    x: IssueView,
)
    ensures
        dead_in_handlers(site, handlers).contains(x) <==> exists|i: int|
            0 <= i < handlers.len() && dead_in(
                site,
                crate::within::handler_block(#[trigger] handlers[i]),
            ).contains(x),
    decreases handlers.len(),
{
    if handlers.len() > 0 {
        let rest = handlers.drop_last();
        lemma_dead_in_handlers(site, rest, x);
        let last = dead_in(site, crate::within::handler_block(handlers.last()));
        vstd::seq_lib::lemma_seq_concat_contains_all_elements(
            dead_in_handlers(site, rest),
            last,
            x,
        );
        if dead_in_handlers(site, rest).contains(x) {
            let i = choose|i: int|
                0 <= i < rest.len() && dead_in(
                    site,
                    crate::within::handler_block(#[trigger] rest[i]),
                ).contains(x);
            assert(handlers[i] == rest[i]);
        }
        if last.contains(x) {
            assert(handlers[handlers.len() - 1] == handlers.last());
        }
        if exists|i: int|
            0 <= i < handlers.len() && dead_in(
                site,
                crate::within::handler_block(#[trigger] handlers[i]),
            ).contains(x) {
            let i = choose|i: int|
                0 <= i < handlers.len() && dead_in(
                    site,
                    crate::within::handler_block(#[trigger] handlers[i]),
                ).contains(x);
            if i < rest.len() {
                assert(rest[i] == handlers[i]);
            }
        }
    }
}

/// Whether a finding is on a dead statement of one of the blocks directly in a statement.
spec fn dead_below(site: SiteView, s: Stmt, x: IssueView) -> bool {
    exists|block: Seq<Stmt>| #[trigger] is_looked_into(s, block) && dead_in(site, block).contains(x)
}

proof fn lemma_dead_inside(site: SiteView, s: Stmt, x: IssueView)
    ensures
        dead_inside(site, &s).contains(x) <==> dead_below(site, s, x),
{
    broadcast use vstd::seq_lib::lemma_seq_concat_contains_all_elements;

    match s {
        Stmt::If(n) => {
            assert(is_looked_into(s, n.body@) && is_looked_into(s, n.orelse@));
        },
        Stmt::For(n) => {
            assert(is_looked_into(s, n.body@) && is_looked_into(s, n.orelse@));
        },
        Stmt::AsyncFor(n) => {
            assert(is_looked_into(s, n.body@) && is_looked_into(s, n.orelse@));
        },
        Stmt::While(n) => {
            assert(is_looked_into(s, n.body@) && is_looked_into(s, n.orelse@));
        },
        Stmt::Try(n) => {
            assert(is_looked_into(s, n.body@) && is_looked_into(s, n.orelse@));
            lemma_dead_in_handlers(site, n.handlers@, x);
            if dead_in_handlers(site, n.handlers@).contains(x) {
                let i = choose|i: int|
                    0 <= i < n.handlers@.len() && dead_in(
                        site,
                        crate::within::handler_block(#[trigger] n.handlers@[i]),
                    ).contains(x);
                assert(is_looked_into(s, crate::within::handler_block(n.handlers@[i])));
            }
            if dead_below(site, s, x) {
                let block = choose|block: Seq<Stmt>| #[trigger]
                    is_looked_into(s, block) && dead_in(site, block).contains(x);
                if block != n.body@ && block != n.orelse@ {
                    let i = choose|i: int|
                        0 <= i < n.handlers@.len() && crate::within::handler_block(
                            #[trigger] n.handlers@[i],
                        ) == block;
                    assert(dead_in(
                        site,
                        crate::within::handler_block(n.handlers@[i]),
                    ).contains(x));
                }
            }
        },
        Stmt::TryStar(n) => {
            assert(is_looked_into(s, n.body@) && is_looked_into(s, n.orelse@));
        },
        Stmt::With(n) => {
            assert(is_looked_into(s, n.body@));
        },
        Stmt::AsyncWith(n) => {
            assert(is_looked_into(s, n.body@));
        },
        Stmt::FunctionDef(n) => {
            assert(is_looked_into(s, n.body@));
        },
        Stmt::AsyncFunctionDef(n) => {
            assert(is_looked_into(s, n.body@));
        },
        Stmt::ClassDef(n) => {
            assert(is_looked_into(s, n.body@));
        },
        _ => {},
    }
}

/// Whether a finding is on a dead statement of one of the blocks of a function.
spec fn dead_somewhere(site: SiteView, f: Stmt, x: IssueView) -> bool {
    exists|block: Seq<Stmt>| #[trigger] is_block_of(f, block) && dead_in(site, block).contains(x)
}

proof fn lemma_dead_function(site: SiteView, s: Stmt, x: IssueView)
    ensures
        dead_function(site, &s).contains(x) <==> dead_somewhere(site, s, x),
{
    let body = def_body(&s);
    let g = each_dead_inside(site);
    vstd::seq_lib::lemma_seq_concat_contains_all_elements(
        dead_in(site, body),
        body.flat_map(g),
        x,
    );
    lemma_flat_map_contains(body, g, x);
    assert(is_block_of(s, body));
    if body.flat_map(g).contains(x) {
        let i = choose|i: int| 0 <= i < body.len() && g(#[trigger] body[i]).contains(x);
        lemma_dead_inside(site, body[i], x);
        let block = choose|block: Seq<Stmt>| #[trigger]
            is_looked_into(body[i], block) && dead_in(site, block).contains(x);
        assert(is_block_of(s, block));
    }
    if dead_somewhere(site, s, x) {
        let block = choose|block: Seq<Stmt>| #[trigger]
            is_block_of(s, block) && dead_in(site, block).contains(x);
        if block != body {
            let i = choose|i: int|
                0 <= i < body.len() && is_looked_into(#[trigger] body[i], block);
            lemma_dead_inside(site, body[i], x);
            assert(g(body[i]).contains(x));
        }
    }
}

/// A statement that stands behind one that always leaves its block is reported where the block
/// is the body of a function of the file or stands directly in a statement of such a body.
pub proof fn law_dead_code_is_reported(
    module: Mod,
    site: SiteView,
    s: &Stmt,
    block: Seq<Stmt>,
    k: int,
)
    requires
        stands_in(body_of(module), *s),
        s is FunctionDef || s is AsyncFunctionDef,
        is_block_of(*s, block),
        0 <= k < block.len(),
        is_behind_an_end(block, k),
    ensures
        has_one_at(
            dead_code(module, site),
            site,
            range_start(stmt_range(&block[k])),
            Severity::Warning,
            "dead-code"@,
            dead_told(),
        ),
{
    let all = functions(body_of(module));
    let f = each_dead_function(site);
    let r = dead_code(module, site);
    law_functions_stand_in_the_body(body_of(module), s);
    let from = law_dead_statements_stand_behind_an_end(site, block);
    let x = dead_in(site, block)[k - from];
    assert(is_behind_an_end(block, k));
    assert(dead_in(site, block).contains(x));
    assert(dead_somewhere(site, *s, x));
    lemma_dead_function(site, *s, x);
    let j = all.index_of(s);
    assert(f(all[j]).contains(x));
    lemma_flat_map_contains(all, f, x);
    let i = r.index_of(x);
    assert(is_at(
        r[i],
        site,
        range_start(stmt_range(&block[k])),
        Severity::Warning,
        "dead-code"@,
        dead_told(),
    ));
}

/// What is reported as dead code is such a statement.
pub proof fn law_reported_dead_code_is_dead(module: Mod, site: SiteView, x: IssueView) -> (r: (
    Stmt,
    Seq<Stmt>,
    int,
))
    requires
        dead_code(module, site).contains(x),
    ensures
        stands_in(body_of(module), r.0),
        r.0 is FunctionDef || r.0 is AsyncFunctionDef,
        is_block_of(r.0, r.1),
        0 <= r.2 < r.1.len(),
        is_behind_an_end(r.1, r.2),
        is_at(
            x,
            site,
            range_start(stmt_range(&r.1[r.2])),
            Severity::Warning,
            "dead-code"@,
            dead_told(),
        ),
{
    let all = functions(body_of(module));
    let f = each_dead_function(site);
    lemma_flat_map_contains(all, f, x);
    let j = choose|j: int| 0 <= j < all.len() && f(#[trigger] all[j]).contains(x);
    let s = *all[j];
    assert(all.contains(all[j]));
    law_functions_stand_in_the_body(body_of(module), all[j]);
    lemma_dead_function(site, s, x);
    let block = choose|block: Seq<Stmt>| #[trigger]
        is_block_of(s, block) && dead_in(site, block).contains(x);
    let from = law_dead_statements_stand_behind_an_end(site, block);
    let k = dead_in(site, block).index_of(x) + from;
    assert(block[k] == block[k]);
    assert(is_behind_an_end(block, k));
    (s, block, k)
}

} // verus!
