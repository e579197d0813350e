//! Which functions and classes a body defines, and in which class a function stands.

use crate::ast_helpers::{
    def_args, def_body, def_name, def_range, def_returns, found_def, found_member, functions,
    is_def, members,
};
use crate::order::lemma_flat_map_contains;
use crate::reach::{lemma_stmts_from, moving};
use crate::syntax::identifier_text;
use crate::walk::{
    below, inside, outset, statements, stmt_parts, walk_case, walk_cases, walk_handler,
    walk_handlers, walk_stmt, walk_stmts, within, At, Coverage, Node, Seen,
};
use crate::within::{
    enters_blocks, handler_block, handles, has_block, is_directly_in, law_found_statements_stand_in,
    law_statements_are_found, leads_inward, reaches, stands_in,
};
use rustpython_ast::{ExceptHandler, MatchCase, Stmt, StmtClassDef};
use vstd::prelude::*;

verus! {

/// Whether one of the visits of a walk is of a kind.
pub open spec fn has_some<'a>(v: Seq<Seen<'a>>, p: spec_fn(Seen<'a>) -> bool) -> bool {
    exists|i: int| 0 <= i < v.len() && p(#[trigger] v[i])
}

/// Whether a visit stays of a kind wherever its tree stands.
pub open spec fn keeps_when_moved<'a>(p: spec_fn(Seen<'a>) -> bool) -> bool {
    forall|v: Seen<'a>, x: At<'a>| p(v) ==> p(#[trigger] moving(x)(v))
}

proof fn lemma_some_anywhere<'a>(
    s: Seq<Stmt>,
    c: Coverage,
    x: At<'a>,
    p: spec_fn(Seen<'a>) -> bool,
)
    requires
        keeps_when_moved(p),
        has_some(walk_stmts(s, c, outset()), p),
    ensures
        has_some(walk_stmts(s, c, x), p),
{
    lemma_stmts_from(s, c, x);
    let v = walk_stmts(s, c, outset());
    let i = choose|i: int| 0 <= i < v.len() && p(#[trigger] v[i]);
    assert(walk_stmts(s, c, x)[i] == moving(x)(v[i]));
}

broadcast proof fn lemma_some_both<'a>(a: Seq<Seen<'a>>, b: Seq<Seen<'a>>, p: spec_fn(Seen<'a>) -> bool)
    ensures
        #[trigger] has_some(a + b, p) == (has_some(a, p) || has_some(b, p)),
{
    if has_some(a, p) {
        let i = choose|i: int| 0 <= i < a.len() && p(#[trigger] a[i]);
        assert(p((a + b)[i]));
    }
    if has_some(b, p) {
        let i = choose|i: int| 0 <= i < b.len() && p(#[trigger] b[i]);
        assert(p((a + b)[a.len() + i]));
    }
    if has_some(a + b, p) {
        let i = choose|i: int| 0 <= i < (a + b).len() && p(#[trigger] (a + b)[i]);
        if i < a.len() {
            assert(p(a[i]));
        } else {
            assert(p(b[i - a.len()]));
        }
    }
}

proof fn lemma_some_stmt<'a>(s: Seq<Stmt>, k: int, c: Coverage, x: At<'a>, p: spec_fn(Seen<'a>) -> bool)
    requires
        keeps_when_moved(p),
        0 <= k < s.len(),
        has_some(walk_stmt(&s[k], c, x), p),
    ensures
        has_some(walk_stmts(s, c, x), p),
    decreases s.len(),
{
    broadcast use lemma_some_both;

    if k < s.len() - 1 {
        lemma_some_stmt(s.drop_last(), k, c, x, p);
    }
}

proof fn lemma_some_handler<'a>(
    s: Seq<ExceptHandler>,
    k: int,
    c: Coverage,
    x: At<'a>,
    p: spec_fn(Seen<'a>) -> bool,
)
    requires
        keeps_when_moved(p),
        0 <= k < s.len(),
        has_some(walk_handler(&s[k], c, x), p),
    ensures
        has_some(walk_handlers(s, c, x), p),
    decreases s.len(),
{
    broadcast use lemma_some_both;

    if k < s.len() - 1 {
        lemma_some_handler(s.drop_last(), k, c, x, p);
    }
}

proof fn lemma_some_case<'a>(s: Seq<MatchCase>, k: int, c: Coverage, x: At<'a>, p: spec_fn(Seen<'a>) -> bool)
    requires
        keeps_when_moved(p),
        0 <= k < s.len(),
        has_some(walk_case(&s[k], c, x), p),
    ensures
        has_some(walk_cases(s, c, x), p),
    decreases s.len(),
{
    broadcast use lemma_some_both;

    if k < s.len() - 1 {
        lemma_some_case(s.drop_last(), k, c, x, p);
    }
}

proof fn lemma_some_handler_blocks<'a>(
    handlers: Seq<ExceptHandler>,
    block: Seq<Stmt>,
    c: Coverage,
    x: At<'a>,
    p: spec_fn(Seen<'a>) -> bool,
)
    requires
        keeps_when_moved(p),
        handles(handlers, block),
        has_some(walk_stmts(block, c, outset()), p),
    ensures
        has_some(walk_handlers(handlers, c, x), p),
{
    broadcast use lemma_some_both;

    let i = choose|i: int| 0 <= i < handlers.len() && handler_block(#[trigger] handlers[i]) == block;
    match handlers[i] {
        ExceptHandler::ExceptHandler(n) => {
            lemma_some_anywhere(n.body@, c, within(x), p);
        },
    }
    lemma_some_handler(handlers, i, c, x, p);
}

proof fn lemma_some_in_blocks<'a>(
    s: &'a Stmt,
    block: Seq<Stmt>,
    c: Coverage,
    x: At<'a>,
    p: spec_fn(Seen<'a>) -> bool,
)
    requires
        keeps_when_moved(p),
        enters_blocks(c),
        has_block(*s, block),
        has_some(walk_stmts(block, c, outset()), p),
    ensures
        has_some(walk_stmt(s, c, x), p),
{
    broadcast use lemma_some_both;

    let y = inside(s, x);
    lemma_some_anywhere(block, c, y, p);
    match s {
        Stmt::Match(n) => {
            let i = choose|i: int| 0 <= i < n.cases@.len() && (#[trigger] n.cases@[i]).body@
                == block;
            lemma_some_anywhere(block, c, below(y), p);
            lemma_some_case(n.cases@, i, c, y, p);
        },
        Stmt::Try(n) => {
            if handles(n.handlers@, block) {
                lemma_some_handler_blocks(n.handlers@, block, c, y, p);
            }
        },
        Stmt::TryStar(n) => {
            if handles(n.handlers@, block) {
                lemma_some_handler_blocks(n.handlers@, block, c, y, p);
            }
        },
        _ => {},
    }
    assert(has_some(stmt_parts(s, c, y), p));
}

proof fn lemma_some_inward<'a>(
    body: Seq<Stmt>,
    line: Seq<Stmt>,
    c: Coverage,
    p: spec_fn(Seen<'a>) -> bool,
)
    requires
        keeps_when_moved(p),
        enters_blocks(c),
        leads_inward(body, line),
        has_some(walk_stmt(&line.last(), c, outset()), p),
    ensures
        has_some(walk_stmts(body, c, outset()), p),
    decreases line.len(),
{
    if line.len() == 1 {
        let k = body.index_of(line[0]);
        lemma_some_stmt(body, k, c, outset(), p);
    } else {
        let rest = line.drop_last();
        let inner = line.last();
        let outer = rest.last();
        assert(is_directly_in(line[line.len() - 2 + 1], line[line.len() - 2]));
        let block = choose|block: Seq<Stmt>| #[trigger]
            has_block(outer, block) && block.contains(inner);
        let k = block.index_of(inner);
        lemma_some_stmt(block, k, c, outset(), p);
        lemma_some_in_blocks(&outer, block, c, outset(), p);
        assert forall|j: int| 0 <= j < rest.len() - 1 implies is_directly_in(
            #[trigger] rest[j + 1],
            rest[j],
        ) by {
            assert(rest[j + 1] == line[j + 1]);
            assert(rest[j] == line[j]);
        }
        assert(leads_inward(body, rest));
        lemma_some_inward(body, rest, c, p);
    }
}

/// The functions of a body are the function definitions that stand in it, at any level.
pub proof fn law_functions_stand_in_the_body<'a>(body: Seq<Stmt>, s: &'a Stmt)
    ensures
        functions(body).contains(s) <==> stands_in(body, *s) && (s is FunctionDef
            || s is AsyncFunctionDef),
{
    let v = walk_stmts(body, statements(), outset());
    lemma_flat_map_contains(v, found_def(), s);
    if functions(body).contains(s) {
        let i = choose|i: int| 0 <= i < v.len() && found_def()(#[trigger] v[i]).contains(s);
        assert(reaches(v, Node::Stmt(s)));
        law_found_statements_stand_in(body, statements(), s);
    }
    if stands_in(body, *s) && is_def(s) {
        law_statements_are_found(body, s);
        let i = choose|i: int| 0 <= i < v.len() && (#[trigger] v[i]).node == Node::Stmt(s);
        assert(found_def()(v[i])[0] == s);
        assert(found_def()(v[i]).contains(s));
    }
}

/// A function that stands directly in a class is found as one of that class, wherever the
/// class stands.
pub proof fn law_methods_belong_to_their_class<'a>(
    body: Seq<Stmt>,
    class: StmtClassDef,
    s: &'a Stmt,
)
    requires
        stands_in(body, Stmt::ClassDef(class)),
        class.body@.contains(*s),
        s is FunctionDef || s is AsyncFunctionDef,
    ensures
        members(body).contains((Some(identifier_text(class.name)), s)),
{
    let c = statements();
    let outer = Stmt::ClassDef(class);
    let p = |v: Seen<'a>| v.node == Node::Stmt(s) && v.class == Some(&class.name);
    assert(keeps_when_moved(p));
    let line = choose|line: Seq<Stmt>| #[trigger] leads_inward(body, line) && line.last() == outer;
    let y = inside(&outer, outset());
    let w = walk_stmt(s, c, y);
    assert(p(w[0]));
    assert(has_some(w, p));
    let k = class.body@.index_of(*s);
    lemma_some_stmt(class.body@, k, c, y, p);
    lemma_some_both(
        crate::walk::walk_exprs(class.bases@, c, y) + crate::walk::walk_keywords(
            class.keywords@,
            c,
            y,
        ),
        walk_stmts(class.body@, c, y),
        p,
    );
    lemma_some_parts(&outer, class, c, y, p);
    lemma_some_inward(body, line, c, p);
    let v = walk_stmts(body, c, outset());
    let i = choose|i: int| 0 <= i < v.len() && p(#[trigger] v[i]);
    let m = (Some(identifier_text(class.name)), s);
    lemma_flat_map_contains(v, found_member(), m);
    assert(found_member()(v[i])[0] == m);
    assert(found_member()(v[i]).contains(m));
}

proof fn lemma_some_parts<'a>(
    outer: &'a Stmt,
    class: StmtClassDef,
    c: Coverage,
    y: At<'a>,
    p: spec_fn(Seen<'a>) -> bool,
)
    requires
        *outer == Stmt::ClassDef(class),
        c == statements(),
        y == inside(outer, outset()),
        has_some(walk_stmts(class.body@, c, y), p),
    ensures
        has_some(walk_stmt(outer, c, outset()), p),
{
    broadcast use lemma_some_both;

    assert(has_some(stmt_parts(outer, c, y), p));
}

/// A function that stands directly in a body, in no class, is found as one of no class.
pub proof fn law_plain_functions_belong_to_no_class<'a>(body: Seq<Stmt>, s: &'a Stmt)
    requires
        body.contains(*s),
        s is FunctionDef || s is AsyncFunctionDef,
    ensures
        members(body).contains((None::<Seq<char>>, s)),
{
    broadcast use lemma_some_both;

    let c = statements();
    let p = |v: Seen<'a>| v.node == Node::Stmt(s) && v.class is None;
    assert(p(walk_stmt(s, c, outset())[0]));
    let k = body.index_of(*s);
    lemma_some_at_outset(body, k, s, p);
    let v = walk_stmts(body, c, outset());
    let i = choose|i: int| 0 <= i < v.len() && p(#[trigger] v[i]);
    let m = (None::<Seq<char>>, s);
    lemma_flat_map_contains(v, found_member(), m);
    assert(found_member()(v[i])[0] == m);
    assert(found_member()(v[i]).contains(m));
}

proof fn lemma_some_at_outset<'a>(
    body: Seq<Stmt>,
    k: int,
    s: &'a Stmt,
    p: spec_fn(Seen<'a>) -> bool,
)
    requires
        0 <= k < body.len(),
        body[k] == *s,
        has_some(walk_stmt(s, statements(), outset()), p),
    ensures
        has_some(walk_stmts(body, statements(), outset()), p),
    decreases body.len(),
{
    broadcast use lemma_some_both;

    if k < body.len() - 1 {
        lemma_some_at_outset(body.drop_last(), k, s, p);
    }
}

/// A definition has the name, the parameters, the return annotation, the body and the place that
/// its statement has, whether it is `async` or not.
pub proof fn law_definitions_have_their_parts(s: &Stmt)
    ensures
        match s {
            Stmt::FunctionDef(n) => is_def(s) && def_name(s) == identifier_text(n.name)
                && def_args(s) == *n.args && def_returns(s) == n.returns && def_body(s) == n.body@
                && def_range(s) == n.range,
            Stmt::AsyncFunctionDef(n) => is_def(s) && def_name(s) == identifier_text(n.name)
                && def_args(s) == *n.args && def_returns(s) == n.returns && def_body(s) == n.body@
                && def_range(s) == n.range,
            _ => !is_def(s),
        },
{
}

} // verus!
