//! What stands in what: statements in blocks at any level, expressions in statements.
//!
//! A statement stands in a body where a line of statements leads to it, each in a block of
//! the one before. The walks that the checks make find every statement, every handler and
//! every expression that stands in the body in this sense.

use crate::reach::{
    lemma_expr_from, lemma_plain_arguments, lemma_plain_expr, lemma_plain_exprs,
    lemma_plain_keywords, lemma_plain_opt_expr, lemma_plain_pattern, lemma_plain_type_params,
    lemma_plain_with_items, lemma_stmts_from, moving, plain,
};
use crate::syntax::identifier_text;
use crate::walk::{
    below, expr_parts, expressions, inside, is_dict_name, outset, statements, stmt_parts,
    stops_at_stmt, walk_arguments, walk_case, walk_cases, walk_comprehension, walk_comprehensions,
    walk_expr, walk_exprs, walk_handler, walk_handlers, walk_keyword, walk_keywords, walk_opt_expr,
    walk_opt_exprs, walk_params, walk_stmt, walk_stmts, walk_type_params, walk_with_items, within,
    At, Coverage, Node, Seen,
};
use rustpython_ast::{
    ArgWithDefault, Arguments, Comprehension, ExceptHandler, ExceptHandlerExceptHandler, Expr,
    Keyword, MatchCase, Stmt, WithItem,
};
use vstd::prelude::*;

verus! {

// ── Statements ──────────────────────────────────────────────────────────────

/// Whether a list of statements is the block of one of several handlers.
pub open spec fn handles(handlers: Seq<ExceptHandler>, block: Seq<Stmt>) -> bool {
    exists|i: int| 0 <= i < handlers.len() && handler_block(#[trigger] handlers[i]) == block
}

/// The block of a handler.
pub open spec fn handler_block(h: ExceptHandler) -> Seq<Stmt> {
    match h {
        ExceptHandler::ExceptHandler(n) => n.body@,
    }
}

/// Whether a list of statements is a block of a statement.
pub open spec fn has_block(s: Stmt, block: Seq<Stmt>) -> bool {
    match s {
        Stmt::FunctionDef(n) => block == n.body@,
        Stmt::AsyncFunctionDef(n) => block == n.body@,
        Stmt::ClassDef(n) => block == n.body@,
        Stmt::For(n) => block == n.body@ || block == n.orelse@,
        Stmt::AsyncFor(n) => block == n.body@ || block == n.orelse@,
        Stmt::While(n) => block == n.body@ || block == n.orelse@,
        Stmt::If(n) => block == n.body@ || block == n.orelse@,
        Stmt::With(n) => block == n.body@,
        Stmt::AsyncWith(n) => block == n.body@,
        Stmt::Match(n) => exists|i: int|
            0 <= i < n.cases@.len() && (#[trigger] n.cases@[i]).body@ == block,
        Stmt::Try(n) => block == n.body@ || block == n.orelse@ || block == n.finalbody@ || handles(
            n.handlers@,
            block,
        ),
        Stmt::TryStar(n) => block == n.body@ || block == n.orelse@ || block == n.finalbody@
            || handles(n.handlers@, block),
        _ => false,
    }
}

/// Whether a statement stands in a block of another.
pub open spec fn is_directly_in(inner: Stmt, outer: Stmt) -> bool {
    exists|block: Seq<Stmt>| #[trigger] has_block(outer, block) && block.contains(inner)
}

/// Whether a line of statements leads inward from a body.
pub open spec fn leads_inward(body: Seq<Stmt>, line: Seq<Stmt>) -> bool {
    &&& line.len() > 0
    &&& body.contains(line[0])
    &&& forall|k: int|
        0 <= k < line.len() - 1 ==> is_directly_in(#[trigger] line[k + 1], line[k])
}

/// Whether a statement stands in a body, at any level.
pub open spec fn stands_in(body: Seq<Stmt>, s: Stmt) -> bool {
    exists|line: Seq<Stmt>| #[trigger] leads_inward(body, line) && line.last() == s
}

/// Whether a walk found a node.
pub open spec fn reaches(v: Seq<Seen>, node: Node) -> bool {
    exists|i: int| 0 <= i < v.len() && (#[trigger] v[i]).node == node
}

pub broadcast proof fn lemma_reaches_both<'a>(a: Seq<Seen<'a>>, b: Seq<Seen<'a>>, node: Node<'a>)
    ensures
        #[trigger] reaches(a + b, node) == (reaches(a, node) || reaches(b, node)),
{
    if reaches(a, node) {
        let i = choose|i: int| 0 <= i < a.len() && (#[trigger] a[i]).node == node;
        assert((a + b)[i].node == node);
    }
    if reaches(b, node) {
        let i = choose|i: int| 0 <= i < b.len() && (#[trigger] b[i]).node == node;
        assert((a + b)[a.len() + i].node == node);
    }
    if reaches(a + b, node) {
        let i = choose|i: int| 0 <= i < (a + b).len() && (#[trigger] (a + b)[i]).node == node;
        if i < a.len() {
            assert(a[i].node == node);
        } else {
            assert(b[i - a.len()].node == node);
        }
    }
}

proof fn lemma_reaches_moved<'a>(v: Seq<Seen<'a>>, x: At<'a>, node: Node<'a>)
    ensures
        reaches(v.map_values(moving(x)), node) == reaches(v, node),
{
    let m = v.map_values(moving(x));
    if reaches(v, node) {
        let i = choose|i: int| 0 <= i < v.len() && (#[trigger] v[i]).node == node;
        assert(m[i].node == node);
    }
    if reaches(m, node) {
        let i = choose|i: int| 0 <= i < m.len() && (#[trigger] m[i]).node == node;
        assert(v[i].node == node);
    }
}

/// Whether a list of statements reaches the same nodes wherever it stands.
proof fn lemma_stmts_anywhere<'a>(s: Seq<Stmt>, c: Coverage, x: At<'a>, node: Node<'a>)
    ensures
        reaches(walk_stmts(s, c, x), node) == reaches(walk_stmts(s, c, outset()), node),
{
    lemma_stmts_from(s, c, x);
    lemma_reaches_moved(walk_stmts(s, c, outset()), x, node);
}

/// Whether a walk goes into definitions and guarded blocks.
pub open spec fn enters_blocks(c: Coverage) -> bool {
    c.functions && c.classes && c.type_checking
}

proof fn lemma_each_stmt<'a>(s: Seq<Stmt>, k: int, c: Coverage, x: At<'a>, node: Node<'a>)
    requires
        0 <= k < s.len(),
        reaches(walk_stmt(&s[k], c, x), node),
    ensures
        reaches(walk_stmts(s, c, x), node),
    decreases s.len(),
{
    broadcast use lemma_reaches_both;

    if k < s.len() - 1 {
        lemma_each_stmt(s.drop_last(), k, c, x, node);
    }
}

proof fn lemma_each_handler<'a>(
    s: Seq<ExceptHandler>,
    k: int,
    c: Coverage,
    x: At<'a>,
    node: Node<'a>,
)
    requires
        0 <= k < s.len(),
        reaches(walk_handler(&s[k], c, x), node),
    ensures
        reaches(walk_handlers(s, c, x), node),
    decreases s.len(),
{
    broadcast use lemma_reaches_both;

    if k < s.len() - 1 {
        lemma_each_handler(s.drop_last(), k, c, x, node);
    }
}

proof fn lemma_each_case<'a>(s: Seq<MatchCase>, k: int, c: Coverage, x: At<'a>, node: Node<'a>)
    requires
        0 <= k < s.len(),
        reaches(walk_case(&s[k], c, x), node),
    ensures
        reaches(walk_cases(s, c, x), node),
    decreases s.len(),
{
    broadcast use lemma_reaches_both;

    if k < s.len() - 1 {
        lemma_each_case(s.drop_last(), k, c, x, node);
    }
}

proof fn lemma_handler_blocks<'a>(
    handlers: Seq<ExceptHandler>,
    block: Seq<Stmt>,
    c: Coverage,
    x: At<'a>,
    node: Node<'a>,
)
    requires
        handles(handlers, block),
        reaches(walk_stmts(block, c, outset()), node),
    ensures
        reaches(walk_handlers(handlers, c, x), node),
{
    broadcast use lemma_reaches_both;

    let i = choose|i: int| 0 <= i < handlers.len() && handler_block(#[trigger] handlers[i]) == block;
    match handlers[i] {
        ExceptHandler::ExceptHandler(n) => {
            lemma_stmts_anywhere(n.body@, c, within(x), node);
        },
    }
    lemma_each_handler(handlers, i, c, x, node);
}

/// A walk of a statement reaches what walks of its blocks reach.
proof fn lemma_blocks_are_entered<'a>(
    s: &'a Stmt,
    block: Seq<Stmt>,
    c: Coverage,
    x: At<'a>,
    node: Node<'a>,
)
    requires
        !stops_at_stmt(s, c),
        has_block(*s, block),
        reaches(walk_stmts(block, c, outset()), node),
    ensures
        reaches(walk_stmt(s, c, x), node),
{
    broadcast use lemma_reaches_both;

    let y = inside(s, x);
    lemma_stmts_anywhere(block, c, y, node);
    match s {
        Stmt::Match(n) => {
            let i = choose|i: int| 0 <= i < n.cases@.len() && (#[trigger] n.cases@[i]).body@
                == block;
            lemma_stmts_anywhere(block, c, below(y), node);
            lemma_each_case(n.cases@, i, c, y, node);
        },
        Stmt::Try(n) => {
            if handles(n.handlers@, block) {
                lemma_handler_blocks(n.handlers@, block, c, y, node);
            }
        },
        Stmt::TryStar(n) => {
            if handles(n.handlers@, block) {
                lemma_handler_blocks(n.handlers@, block, c, y, node);
            }
        },
        _ => {},
    }
    assert(reaches(stmt_parts(s, c, y), node));
}

/// A walk of a body reaches what the walk of a statement reaches that stands in it.
pub proof fn lemma_reaches_inward<'a>(
    body: Seq<Stmt>,
    line: Seq<Stmt>,
    c: Coverage,
    node: Node<'a>,
)
    requires
        forall|k: int| 0 <= k < line.len() - 1 ==> !stops_at_stmt(&#[trigger] line[k], c),
        leads_inward(body, line),
        reaches(walk_stmt(&line.last(), c, outset()), node),
    ensures
        reaches(walk_stmts(body, c, outset()), node),
    decreases line.len(),
{
    if line.len() == 1 {
        let k = body.index_of(line[0]);
        lemma_each_stmt(body, k, c, outset(), node);
    } else {
        let rest = line.drop_last();
        let inner = line.last();
        let outer = rest.last();
        assert(!stops_at_stmt(&line[line.len() - 2], c));
        assert(is_directly_in(line[line.len() - 2 + 1], line[line.len() - 2]));
        let block = choose|block: Seq<Stmt>| #[trigger]
            has_block(outer, block) && block.contains(inner);
        let k = block.index_of(inner);
        lemma_each_stmt(block, k, c, outset(), node);
        lemma_blocks_are_entered(&outer, block, c, outset(), node);
        assert forall|j: int| 0 <= j < rest.len() - 1 implies is_directly_in(
            #[trigger] rest[j + 1],
            rest[j],
        ) by {
            assert(rest[j + 1] == line[j + 1]);
            assert(rest[j] == line[j]);
        }
        assert(leads_inward(body, rest));
        assert forall|j: int| 0 <= j < rest.len() - 1 implies !stops_at_stmt(
            &#[trigger] rest[j],
            c,
        ) by {
            assert(rest[j] == line[j]);
        }
        lemma_reaches_inward(body, rest, c, node);
    }
}

/// A walk finds every statement that stands in the body.
pub proof fn law_statements_are_found(body: Seq<Stmt>, s: &Stmt)
    requires
        stands_in(body, *s),
    ensures
        reaches(walk_stmts(body, statements(), outset()), Node::Stmt(s)),
        reaches(walk_stmts(body, expressions(), outset()), Node::Stmt(s)),
{
    let line = choose|line: Seq<Stmt>| #[trigger] leads_inward(body, line) && line.last() == *s;
    assert(walk_stmt(s, statements(), outset())[0].node == Node::Stmt(s));
    assert(walk_stmt(s, expressions(), outset())[0].node == Node::Stmt(s));
    lemma_reaches_inward(body, line, statements(), Node::Stmt(s));
    lemma_reaches_inward(body, line, expressions(), Node::Stmt(s));
}

/// Whether a handler belongs to a `try` statement in a body, at any level.
pub open spec fn handler_in(body: Seq<Stmt>, h: ExceptHandlerExceptHandler) -> bool {
    exists|s: Stmt| #[trigger]
        stands_in(body, s) && match s {
            Stmt::Try(n) => n.handlers@.contains(ExceptHandler::ExceptHandler(h)),
            Stmt::TryStar(n) => n.handlers@.contains(ExceptHandler::ExceptHandler(h)),
            _ => false,
        }
}

/// A walk finds every handler that stands in the body.
pub proof fn law_handlers_are_found(body: Seq<Stmt>, h: &ExceptHandlerExceptHandler)
    requires
        handler_in(body, *h),
    ensures
        reaches(walk_stmts(body, statements(), outset()), Node::Handler(h)),
{
    broadcast use lemma_reaches_both;

    let c = statements();
    let node = Node::Handler(h);
    let s = choose|s: Stmt| #[trigger]
        stands_in(body, s) && match s {
            Stmt::Try(n) => n.handlers@.contains(ExceptHandler::ExceptHandler(*h)),
            Stmt::TryStar(n) => n.handlers@.contains(ExceptHandler::ExceptHandler(*h)),
            _ => false,
        };
    let line = choose|line: Seq<Stmt>| #[trigger] leads_inward(body, line) && line.last() == s;
    let y = inside(&s, outset());
    let handlers = match s {
        Stmt::Try(n) => n.handlers@,
        Stmt::TryStar(n) => n.handlers@,
        _ => seq![],
    };
    let k = handlers.index_of(ExceptHandler::ExceptHandler(*h));
    assert(walk_handler(&handlers[k], c, y)[0].node == node);
    lemma_each_handler(handlers, k, c, y, node);
    assert(reaches(stmt_parts(&s, c, y), node));
    assert(reaches(walk_stmt(&s, c, outset()), node));
    lemma_reaches_inward(body, line, c, node);
}

/// Whether a statement stands in a block of another, at any level.
pub open spec fn stands_inside(outer: Stmt, s: Stmt) -> bool {
    exists|block: Seq<Stmt>| #[trigger] has_block(outer, block) && stands_in(block, s)
}

proof fn lemma_stands_further_in(body: Seq<Stmt>, outer: Stmt, s: Stmt)
    requires
        body.contains(outer),
        outer == s || stands_inside(outer, s),
    ensures
        stands_in(body, s),
{
    if outer == s {
        assert(leads_inward(body, seq![s]));
        assert(seq![s].last() == s);
    } else {
        let block = choose|block: Seq<Stmt>| #[trigger]
            has_block(outer, block) && stands_in(block, s);
        let line = choose|line: Seq<Stmt>| #[trigger] leads_inward(block, line) && line.last() == s;
        let longer = seq![outer] + line;
        assert(longer[0] == outer);
        assert forall|k: int| 0 <= k < longer.len() - 1 implies is_directly_in(
            #[trigger] longer[k + 1],
            longer[k],
        ) by {
            if k == 0 {
                assert(longer[1] == line[0]);
                assert(has_block(outer, block) && block.contains(line[0]));
            } else {
                assert(longer[k + 1] == line[k - 1 + 1]);
                assert(longer[k] == line[k - 1]);
            }
        }
        assert(leads_inward(body, longer));
        assert(longer.last() == s);
    }
}

proof fn lemma_plain_reaches<'a>(v: Seq<Seen<'a>>, x: At<'a>, s: &'a Stmt)
    requires
        plain(v, x),
    ensures
        !reaches(v, Node::Stmt(s)),
{
}

proof fn lemma_found_stmts<'a>(body: Seq<Stmt>, c: Coverage, x: At<'a>, s: &'a Stmt)
    requires
        reaches(walk_stmts(body, c, x), Node::Stmt(s)),
    ensures
        stands_in(body, *s),
    decreases body, 0nat,
{
    broadcast use lemma_reaches_both;

    let node = Node::Stmt(s);
    if body.len() > 0 {
        let rest = body.drop_last();
        let last = body.last();
        assert(body[body.len() - 1] == last);
        if reaches(walk_stmt(&last, c, x), node) {
            lemma_found_stmt(&last, c, x, s);
            lemma_stands_further_in(body, last, *s);
        } else {
            lemma_found_stmts(rest, c, x, s);
            let line = choose|line: Seq<Stmt>| #[trigger]
                leads_inward(rest, line) && line.last() == *s;
            let k = rest.index_of(line[0]);
            assert(body[k] == line[0]);
            assert(leads_inward(body, line));
        }
    }
}

proof fn lemma_found_stmt<'a>(outer: &'a Stmt, c: Coverage, x: At<'a>, s: &'a Stmt)
    requires
        reaches(walk_stmt(outer, c, x), Node::Stmt(s)),
    ensures
        *outer == *s || stands_inside(*outer, *s),
    decreases outer, 1nat,
{
    let v = walk_stmt(outer, c, x);
    let i = choose|i: int| 0 <= i < v.len() && (#[trigger] v[i]).node == Node::Stmt(s);
    if i > 0 {
        let parts = stmt_parts(outer, c, inside(outer, x));
        assert(parts[i - 1] == v[i]);
        assert(reaches(parts, Node::Stmt(s)));
        lemma_found_parts(outer, c, inside(outer, x), s);
    }
}

proof fn lemma_found_block<'a>(outer: &Stmt, block: Seq<Stmt>, c: Coverage, x: At<'a>, s: &'a Stmt)
    requires
        has_block(*outer, block),
    ensures
        reaches(walk_stmts(block, c, x), Node::Stmt(s)) && stands_in(block, *s) ==> stands_inside(
            *outer,
            *s,
        ),
{
}

proof fn lemma_found_handlers<'a>(
    handlers: Seq<ExceptHandler>,
    c: Coverage,
    x: At<'a>,
    s: &'a Stmt,
) -> (block: Seq<Stmt>)
    requires
        reaches(walk_handlers(handlers, c, x), Node::Stmt(s)),
    ensures
        handles(handlers, block),
        stands_in(block, *s),
    decreases handlers, 0nat,
{
    broadcast use lemma_reaches_both;

    let node = Node::Stmt(s);
    if handlers.len() > 0 {
        let last = handlers.last();
        assert(handlers[handlers.len() - 1] == last);
        if reaches(walk_handler(&last, c, x), node) {
            match last {
                ExceptHandler::ExceptHandler(n) => {
                    let z = within(x);
                    lemma_plain_opt_expr(n.type_, c, z);
                    lemma_plain_reaches(walk_opt_expr(n.type_, c, z), z, s);
                    let root = seq![crate::walk::found(Node::Handler(&n), z)];
                    assert(!reaches(root, node));
                    assert(walk_handler(&last, c, x) == root + walk_opt_expr(n.type_, c, z)
                        + walk_stmts(n.body@, c, z));
                    lemma_found_stmts(n.body@, c, z, s);
                    n.body@
                },
            }
        } else {
            let block = lemma_found_handlers(handlers.drop_last(), c, x, s);
            let i = choose|i: int|
                0 <= i < handlers.drop_last().len() && handler_block(
                    #[trigger] handlers.drop_last()[i],
                ) == block;
            assert(handlers[i] == handlers.drop_last()[i]);
            block
        }
    } else {
        seq![]
    }
}

proof fn lemma_found_cases<'a>(cases: Seq<MatchCase>, c: Coverage, x: At<'a>, s: &'a Stmt) -> (k:
    int)
    requires
        reaches(walk_cases(cases, c, x), Node::Stmt(s)),
    ensures
        0 <= k < cases.len(),
        stands_in(cases[k].body@, *s),
    decreases cases, 0nat,
{
    broadcast use lemma_reaches_both;

    let node = Node::Stmt(s);
    if cases.len() > 0 {
        let last = cases.last();
        if reaches(walk_case(&last, c, x), node) {
            let z = below(x);
            lemma_plain_pattern(&last.pattern, c, z);
            lemma_plain_opt_expr(last.guard, c, z);
            lemma_plain_reaches(crate::walk::walk_pattern(&last.pattern, c, z), z, s);
            lemma_plain_reaches(walk_opt_expr(last.guard, c, z), z, s);
            let root = seq![crate::walk::found(Node::Case(&last), x)];
            assert(!reaches(root, node));
            lemma_found_stmts(last.body@, c, z, s);
            cases.len() - 1
        } else {
            lemma_found_cases(cases.drop_last(), c, x, s)
        }
    } else {
        0
    }
}

proof fn lemma_found_parts<'a>(outer: &'a Stmt, c: Coverage, y: At<'a>, s: &'a Stmt)
    requires
        reaches(stmt_parts(outer, c, y), Node::Stmt(s)),
    ensures
        stands_inside(*outer, *s),
    decreases outer, 0nat,
{
    broadcast use lemma_reaches_both;

    let node = Node::Stmt(s);
    match outer {
        Stmt::FunctionDef(n) => {
            lemma_plain_arguments(&n.args, c, y);
            lemma_plain_reaches(walk_arguments(&n.args, c, y), y, s);
            if reaches(walk_stmts(n.body@, c, y), node) {
                lemma_found_stmts(n.body@, c, y, s);
                lemma_found_block(outer, n.body@, c, y, s);
            }
            lemma_plain_exprs(n.decorator_list@, c, y);
            lemma_plain_reaches(walk_exprs(n.decorator_list@, c, y), y, s);
            lemma_plain_opt_expr(n.returns, c, y);
            lemma_plain_reaches(walk_opt_expr(n.returns, c, y), y, s);
            lemma_plain_type_params(n.type_params@, c, y);
            lemma_plain_reaches(walk_type_params(n.type_params@, c, y), y, s);
        },
        Stmt::AsyncFunctionDef(n) => {
            lemma_plain_arguments(&n.args, c, y);
            lemma_plain_reaches(walk_arguments(&n.args, c, y), y, s);
            if reaches(walk_stmts(n.body@, c, y), node) {
                lemma_found_stmts(n.body@, c, y, s);
                lemma_found_block(outer, n.body@, c, y, s);
            }
            lemma_plain_exprs(n.decorator_list@, c, y);
            lemma_plain_reaches(walk_exprs(n.decorator_list@, c, y), y, s);
            lemma_plain_opt_expr(n.returns, c, y);
            lemma_plain_reaches(walk_opt_expr(n.returns, c, y), y, s);
            lemma_plain_type_params(n.type_params@, c, y);
            lemma_plain_reaches(walk_type_params(n.type_params@, c, y), y, s);
        },
        Stmt::ClassDef(n) => {
            lemma_plain_exprs(n.bases@, c, y);
            lemma_plain_reaches(walk_exprs(n.bases@, c, y), y, s);
            lemma_plain_keywords(n.keywords@, c, y);
            lemma_plain_reaches(walk_keywords(n.keywords@, c, y), y, s);
            if reaches(walk_stmts(n.body@, c, y), node) {
                lemma_found_stmts(n.body@, c, y, s);
                lemma_found_block(outer, n.body@, c, y, s);
            }
            lemma_plain_exprs(n.decorator_list@, c, y);
            lemma_plain_reaches(walk_exprs(n.decorator_list@, c, y), y, s);
            lemma_plain_type_params(n.type_params@, c, y);
            lemma_plain_reaches(walk_type_params(n.type_params@, c, y), y, s);
        },
        Stmt::Return(n) => {
            lemma_plain_opt_expr(n.value, c, y);
            lemma_plain_reaches(walk_opt_expr(n.value, c, y), y, s);
        },
        Stmt::Delete(n) => {
            lemma_plain_exprs(n.targets@, c, y);
            lemma_plain_reaches(walk_exprs(n.targets@, c, y), y, s);
        },
        Stmt::Assign(n) => {
            lemma_plain_exprs(n.targets@, c, y);
            lemma_plain_reaches(walk_exprs(n.targets@, c, y), y, s);
            lemma_plain_expr(&n.value, c, y);
            lemma_plain_reaches(walk_expr(&n.value, c, y), y, s);
        },
        Stmt::TypeAlias(n) => {
            lemma_plain_expr(&n.name, c, y);
            lemma_plain_reaches(walk_expr(&n.name, c, y), y, s);
            lemma_plain_type_params(n.type_params@, c, y);
            lemma_plain_reaches(walk_type_params(n.type_params@, c, y), y, s);
            lemma_plain_expr(&n.value, c, y);
            lemma_plain_reaches(walk_expr(&n.value, c, y), y, s);
        },
        Stmt::AugAssign(n) => {
            lemma_plain_expr(&n.target, c, y);
            lemma_plain_reaches(walk_expr(&n.target, c, y), y, s);
            lemma_plain_expr(&n.value, c, y);
            lemma_plain_reaches(walk_expr(&n.value, c, y), y, s);
        },
        Stmt::AnnAssign(n) => {
            lemma_plain_expr(&n.target, c, y);
            lemma_plain_reaches(walk_expr(&n.target, c, y), y, s);
            lemma_plain_expr(&n.annotation, c, y);
            lemma_plain_reaches(walk_expr(&n.annotation, c, y), y, s);
            lemma_plain_opt_expr(n.value, c, y);
            lemma_plain_reaches(walk_opt_expr(n.value, c, y), y, s);
        },
        Stmt::For(n) => {
            lemma_plain_expr(&n.target, c, y);
            lemma_plain_reaches(walk_expr(&n.target, c, y), y, s);
            lemma_plain_expr(&n.iter, c, y);
            lemma_plain_reaches(walk_expr(&n.iter, c, y), y, s);
            if reaches(walk_stmts(n.body@, c, y), node) {
                lemma_found_stmts(n.body@, c, y, s);
                lemma_found_block(outer, n.body@, c, y, s);
            }
            if reaches(walk_stmts(n.orelse@, c, y), node) {
                lemma_found_stmts(n.orelse@, c, y, s);
                lemma_found_block(outer, n.orelse@, c, y, s);
            }
        },
        Stmt::AsyncFor(n) => {
            lemma_plain_expr(&n.target, c, y);
            lemma_plain_reaches(walk_expr(&n.target, c, y), y, s);
            lemma_plain_expr(&n.iter, c, y);
            lemma_plain_reaches(walk_expr(&n.iter, c, y), y, s);
            if reaches(walk_stmts(n.body@, c, y), node) {
                lemma_found_stmts(n.body@, c, y, s);
                lemma_found_block(outer, n.body@, c, y, s);
            }
            if reaches(walk_stmts(n.orelse@, c, y), node) {
                lemma_found_stmts(n.orelse@, c, y, s);
                lemma_found_block(outer, n.orelse@, c, y, s);
            }
        },
        Stmt::While(n) => {
            lemma_plain_expr(&n.test, c, y);
            lemma_plain_reaches(walk_expr(&n.test, c, y), y, s);
            if reaches(walk_stmts(n.body@, c, y), node) {
                lemma_found_stmts(n.body@, c, y, s);
                lemma_found_block(outer, n.body@, c, y, s);
            }
            if reaches(walk_stmts(n.orelse@, c, y), node) {
                lemma_found_stmts(n.orelse@, c, y, s);
                lemma_found_block(outer, n.orelse@, c, y, s);
            }
        },
        Stmt::If(n) => {
            lemma_plain_expr(&n.test, c, y);
            lemma_plain_reaches(walk_expr(&n.test, c, y), y, s);
            if reaches(walk_stmts(n.body@, c, y), node) {
                lemma_found_stmts(n.body@, c, y, s);
                lemma_found_block(outer, n.body@, c, y, s);
            }
            if reaches(walk_stmts(n.orelse@, c, y), node) {
                lemma_found_stmts(n.orelse@, c, y, s);
                lemma_found_block(outer, n.orelse@, c, y, s);
            }
        },
        Stmt::With(n) => {
            lemma_plain_with_items(n.items@, c, y);
            lemma_plain_reaches(walk_with_items(n.items@, c, y), y, s);
            if reaches(walk_stmts(n.body@, c, y), node) {
                lemma_found_stmts(n.body@, c, y, s);
                lemma_found_block(outer, n.body@, c, y, s);
            }
        },
        Stmt::AsyncWith(n) => {
            lemma_plain_with_items(n.items@, c, y);
            lemma_plain_reaches(walk_with_items(n.items@, c, y), y, s);
            if reaches(walk_stmts(n.body@, c, y), node) {
                lemma_found_stmts(n.body@, c, y, s);
                lemma_found_block(outer, n.body@, c, y, s);
            }
        },
        Stmt::Match(n) => {
            lemma_plain_expr(&n.subject, c, y);
            lemma_plain_reaches(walk_expr(&n.subject, c, y), y, s);
            if reaches(walk_cases(n.cases@, c, y), node) {
                let k = lemma_found_cases(n.cases@, c, y, s);
                assert(has_block(*outer, n.cases@[k].body@));
            }
        },
        Stmt::Raise(n) => {
            lemma_plain_opt_expr(n.exc, c, y);
            lemma_plain_reaches(walk_opt_expr(n.exc, c, y), y, s);
            lemma_plain_opt_expr(n.cause, c, y);
            lemma_plain_reaches(walk_opt_expr(n.cause, c, y), y, s);
        },
        Stmt::Try(n) => {
            if reaches(walk_stmts(n.body@, c, y), node) {
                lemma_found_stmts(n.body@, c, y, s);
                lemma_found_block(outer, n.body@, c, y, s);
            }
            if reaches(walk_handlers(n.handlers@, c, y), node) {
                let block = lemma_found_handlers(n.handlers@, c, y, s);
                assert(has_block(*outer, block));
            }
            if reaches(walk_stmts(n.orelse@, c, y), node) {
                lemma_found_stmts(n.orelse@, c, y, s);
                lemma_found_block(outer, n.orelse@, c, y, s);
            }
            if reaches(walk_stmts(n.finalbody@, c, y), node) {
                lemma_found_stmts(n.finalbody@, c, y, s);
                lemma_found_block(outer, n.finalbody@, c, y, s);
            }
        },
        Stmt::TryStar(n) => {
            if reaches(walk_stmts(n.body@, c, y), node) {
                lemma_found_stmts(n.body@, c, y, s);
                lemma_found_block(outer, n.body@, c, y, s);
            }
            if reaches(walk_handlers(n.handlers@, c, y), node) {
                let block = lemma_found_handlers(n.handlers@, c, y, s);
                assert(has_block(*outer, block));
            }
            if reaches(walk_stmts(n.orelse@, c, y), node) {
                lemma_found_stmts(n.orelse@, c, y, s);
                lemma_found_block(outer, n.orelse@, c, y, s);
            }
            if reaches(walk_stmts(n.finalbody@, c, y), node) {
                lemma_found_stmts(n.finalbody@, c, y, s);
                lemma_found_block(outer, n.finalbody@, c, y, s);
            }
        },
        Stmt::Assert(n) => {
            lemma_plain_expr(&n.test, c, y);
            lemma_plain_reaches(walk_expr(&n.test, c, y), y, s);
            lemma_plain_opt_expr(n.msg, c, y);
            lemma_plain_reaches(walk_opt_expr(n.msg, c, y), y, s);
        },
        Stmt::Expr(n) => {
            lemma_plain_expr(&n.value, c, y);
            lemma_plain_reaches(walk_expr(&n.value, c, y), y, s);
        },
        _ => {},
    }
}

/// The statements that a walk finds stand in the body.
pub proof fn law_found_statements_stand_in(body: Seq<Stmt>, c: Coverage, s: &Stmt)
    requires
        reaches(walk_stmts(body, c, outset()), Node::Stmt(s)),
    ensures
        stands_in(body, *s),
{
    lemma_found_stmts(body, c, outset(), s);
}

/// Whether a statement defines a function, or guards a block that is only for type checkers.
pub open spec fn is_not_run_on_import(s: Stmt) -> bool {
    match s {
        Stmt::FunctionDef(_) => true,
        Stmt::AsyncFunctionDef(_) => true,
        Stmt::If(n) => match *n.test {
            Expr::Name(t) => identifier_text(t.id) == "TYPE_CHECKING"@,
            Expr::Attribute(t) => identifier_text(t.attr) == "TYPE_CHECKING"@,
            _ => false,
        },
        _ => false,
    }
}

/// Whether a statement stands in a body where importing the body's module reaches it.
pub open spec fn runs_on_import(body: Seq<Stmt>, s: Stmt) -> bool {
    exists|line: Seq<Stmt>| #[trigger]
        leads_inward(body, line) && line.last() == s && forall|k: int|
            0 <= k < line.len() - 1 ==> !is_not_run_on_import(#[trigger] line[k])
}

/// A walk that stays out of functions and guarded blocks finds such a statement.
pub proof fn lemma_run_statements_are_found(body: Seq<Stmt>, s: &Stmt, c: Coverage)
    requires
        runs_on_import(body, *s),
        c.classes,
    ensures
        reaches(walk_stmts(body, c, outset()), Node::Stmt(s)),
{
    let line = choose|line: Seq<Stmt>| #[trigger]
        leads_inward(body, line) && line.last() == *s && forall|k: int|
            0 <= k < line.len() - 1 ==> !is_not_run_on_import(#[trigger] line[k]);
    assert(walk_stmt(s, c, outset())[0].node == Node::Stmt(s));
    assert forall|k: int| 0 <= k < line.len() - 1 implies !stops_at_stmt(&#[trigger] line[k], c) by {
        assert(!is_not_run_on_import(line[k]));
    }
    lemma_reaches_inward(body, line, c, Node::Stmt(s));
}

// ── Expressions ─────────────────────────────────────────────────────────────

/// Whether an expression is an annotation or a default among parameters.
pub open spec fn in_params(params: Seq<ArgWithDefault>, e: Expr) -> bool {
    exists|i: int|
        0 <= i < params.len() && ((#[trigger] params[i]).def.annotation == Some(Box::new(e))
            || params[i].default == Some(Box::new(e)))
}

/// Whether an expression is an annotation or a default of a function's parameters.
pub open spec fn in_arguments(a: Arguments, e: Expr) -> bool {
    ||| in_params(a.posonlyargs@, e)
    ||| in_params(a.args@, e)
    ||| in_params(a.kwonlyargs@, e)
    ||| a.vararg matches Some(v) && v.annotation == Some(Box::new(e))
    ||| a.kwarg matches Some(v) && v.annotation == Some(Box::new(e))
}

/// Whether an expression stands directly in the clauses of a comprehension.
pub open spec fn in_clauses(s: Seq<Comprehension>, e: Expr) -> bool {
    exists|i: int|
        0 <= i < s.len() && ((#[trigger] s[i]).target == e || s[i].iter == e || s[i].ifs@.contains(
            e,
        ))
}

/// Whether an expression is the value of a keyword argument.
pub open spec fn in_keywords(s: Seq<Keyword>, e: Expr) -> bool {
    exists|i: int| 0 <= i < s.len() && (#[trigger] s[i]).value == e
}

/// Whether an expression is an operand of another.
pub open spec fn has_operand(outer: Expr, e: Expr) -> bool {
    match outer {
        Expr::Lambda(n) => in_arguments(*n.args, e) || *n.body == e,
        Expr::Subscript(n) => *n.value == e || *n.slice == e,
        Expr::BoolOp(n) => n.values@.contains(e),
        Expr::NamedExpr(n) => *n.target == e || *n.value == e,
        Expr::BinOp(n) => *n.left == e || *n.right == e,
        Expr::UnaryOp(n) => *n.operand == e,
        Expr::IfExp(n) => *n.test == e || *n.body == e || *n.orelse == e,
        Expr::Dict(n) => n.keys@.contains(Some(e)) || n.values@.contains(e),
        Expr::Set(n) => n.elts@.contains(e),
        Expr::ListComp(n) => *n.elt == e || in_clauses(n.generators@, e),
        Expr::SetComp(n) => *n.elt == e || in_clauses(n.generators@, e),
        Expr::DictComp(n) => *n.key == e || *n.value == e || in_clauses(n.generators@, e),
        Expr::GeneratorExp(n) => *n.elt == e || in_clauses(n.generators@, e),
        Expr::Await(n) => *n.value == e,
        Expr::Yield(n) => n.value == Some(Box::new(e)),
        Expr::YieldFrom(n) => *n.value == e,
        Expr::Compare(n) => *n.left == e || n.comparators@.contains(e),
        Expr::Call(n) => *n.func == e || n.args@.contains(e) || in_keywords(n.keywords@, e),
        Expr::FormattedValue(n) => *n.value == e || n.format_spec == Some(Box::new(e)),
        Expr::JoinedStr(n) => n.values@.contains(e),
        Expr::Attribute(n) => *n.value == e,
        Expr::Starred(n) => *n.value == e,
        Expr::List(n) => n.elts@.contains(e),
        Expr::Tuple(n) => n.elts@.contains(e),
        Expr::Slice(n) => n.lower == Some(Box::new(e)) || n.upper == Some(Box::new(e)) || n.step
            == Some(Box::new(e)),
        _ => false,
    }
}

/// Whether an expression names what a context manager is, or what it is bound to.
pub open spec fn in_items(s: Seq<WithItem>, e: Expr) -> bool {
    exists|i: int|
        0 <= i < s.len() && ((#[trigger] s[i]).context_expr == e || s[i].optional_vars == Some(
            Box::new(e),
        ))
}

/// Whether an expression names what one of several handlers catches.
pub open spec fn is_caught(handlers: Seq<ExceptHandler>, e: Expr) -> bool {
    exists|i: int|
        0 <= i < handlers.len() && match #[trigger] handlers[i] {
            ExceptHandler::ExceptHandler(n) => n.type_ == Some(Box::new(e)),
        }
}

/// Whether an expression stands directly in a statement.
pub open spec fn has_expression(s: Stmt, e: Expr) -> bool {
    match s {
        Stmt::FunctionDef(n) => in_arguments(*n.args, e) || n.decorator_list@.contains(e)
            || n.returns == Some(Box::new(e)),
        Stmt::AsyncFunctionDef(n) => in_arguments(*n.args, e) || n.decorator_list@.contains(e)
            || n.returns == Some(Box::new(e)),
        Stmt::ClassDef(n) => n.bases@.contains(e) || in_keywords(n.keywords@, e)
            || n.decorator_list@.contains(e),
        Stmt::Return(n) => n.value == Some(Box::new(e)),
        Stmt::Delete(n) => n.targets@.contains(e),
        Stmt::Assign(n) => n.targets@.contains(e) || *n.value == e,
        Stmt::AugAssign(n) => *n.target == e || *n.value == e,
        Stmt::AnnAssign(n) => *n.target == e || *n.annotation == e || n.value == Some(Box::new(e)),
        Stmt::For(n) => *n.target == e || *n.iter == e,
        Stmt::AsyncFor(n) => *n.target == e || *n.iter == e,
        Stmt::While(n) => *n.test == e,
        Stmt::If(n) => *n.test == e,
        Stmt::With(n) => in_items(n.items@, e),
        Stmt::AsyncWith(n) => in_items(n.items@, e),
        Stmt::Match(n) => *n.subject == e || exists|i: int|
            0 <= i < n.cases@.len() && (#[trigger] n.cases@[i]).guard == Some(Box::new(e)),
        Stmt::Raise(n) => n.exc == Some(Box::new(e)) || n.cause == Some(Box::new(e)),
        Stmt::Try(n) => is_caught(n.handlers@, e),
        Stmt::TryStar(n) => is_caught(n.handlers@, e),
        Stmt::Assert(n) => *n.test == e || n.msg == Some(Box::new(e)),
        Stmt::Expr(n) => *n.value == e,
        _ => false,
    }
}

/// Whether a line of expressions leads inward from a statement.
pub open spec fn leads_down(s: Stmt, line: Seq<Expr>) -> bool {
    &&& line.len() > 0
    &&& has_expression(s, line[0])
    &&& forall|k: int| 0 <= k < line.len() - 1 ==> has_operand(line[k], #[trigger] line[k + 1])
}

/// Whether an expression stands in a body, at any level.
pub open spec fn expression_in(body: Seq<Stmt>, e: Expr) -> bool {
    exists|s: Stmt, line: Seq<Expr>| #[trigger]
        stands_in(body, s) && #[trigger] leads_down(s, line) && line.last() == e
}

proof fn lemma_expr_anywhere<'a>(e: &'a Expr, c: Coverage, x: At<'a>, node: Node<'a>)
    ensures
        reaches(walk_expr(e, c, x), node) == reaches(walk_expr(e, c, outset()), node),
{
    lemma_expr_from(e, c, x);
    lemma_reaches_moved(walk_expr(e, c, outset()), x, node);
}

proof fn lemma_each_expr<'a>(s: Seq<Expr>, e: &'a Expr, c: Coverage, x: At<'a>, node: Node<'a>)
    requires
        s.contains(*e),
        reaches(walk_expr(e, c, outset()), node),
    ensures
        reaches(walk_exprs(s, c, x), node),
    decreases s.len(),
{
    broadcast use lemma_reaches_both;

    lemma_expr_anywhere(e, c, x, node);
    let k = s.index_of(*e);
    if k < s.len() - 1 {
        assert(s.drop_last()[k] == *e);
        lemma_each_expr(s.drop_last(), e, c, x, node);
    }
}

proof fn lemma_each_opt_expr<'a>(
    s: Seq<Option<Expr>>,
    e: &'a Expr,
    c: Coverage,
    x: At<'a>,
    node: Node<'a>,
)
    requires
        s.contains(Some(*e)),
        reaches(walk_expr(e, c, outset()), node),
    ensures
        reaches(walk_opt_exprs(s, c, x), node),
    decreases s.len(),
{
    broadcast use lemma_reaches_both;

    lemma_expr_anywhere(e, c, x, node);
    let k = s.index_of(Some(*e));
    if k < s.len() - 1 {
        assert(s.drop_last()[k] == Some(*e));
        lemma_each_opt_expr(s.drop_last(), e, c, x, node);
    }
}

proof fn lemma_in_params<'a>(
    s: Seq<ArgWithDefault>,
    e: &'a Expr,
    c: Coverage,
    x: At<'a>,
    node: Node<'a>,
)
    requires
        in_params(s, *e),
        reaches(walk_expr(e, c, outset()), node),
    ensures
        reaches(walk_params(s, c, x), node),
    decreases s.len(),
{
    broadcast use lemma_reaches_both;

    lemma_expr_anywhere(e, c, x, node);
    let i = choose|i: int|
        0 <= i < s.len() && ((#[trigger] s[i]).def.annotation == Some(Box::new(*e)) || s[i].default
            == Some(Box::new(*e)));
    if i < s.len() - 1 {
        assert(s.drop_last()[i] == s[i]);
        lemma_in_params(s.drop_last(), e, c, x, node);
    } else {
        assert(reaches(walk_opt_expr(s.last().def.annotation, c, x), node) || reaches(
            walk_opt_expr(s.last().default, c, x),
            node,
        ));
    }
    assert(reaches(
        walk_params(s.drop_last(), c, x) + walk_opt_expr(s.last().def.annotation, c, x),
        node,
    ) || reaches(walk_opt_expr(s.last().default, c, x), node));
}

proof fn lemma_in_arguments<'a>(
    a: &'a Arguments,
    e: &'a Expr,
    c: Coverage,
    x: At<'a>,
    node: Node<'a>,
)
    requires
        c.arguments,
        in_arguments(*a, *e),
        reaches(walk_expr(e, c, outset()), node),
    ensures
        reaches(walk_arguments(a, c, x), node),
{
    broadcast use lemma_reaches_both;

    lemma_expr_anywhere(e, c, below(x), node);
    if in_params(a.posonlyargs@, *e) {
        lemma_in_params(a.posonlyargs@, e, c, below(x), node);
    } else if in_params(a.args@, *e) {
        lemma_in_params(a.args@, e, c, below(x), node);
    } else if in_params(a.kwonlyargs@, *e) {
        lemma_in_params(a.kwonlyargs@, e, c, below(x), node);
    }
}

proof fn lemma_in_clauses<'a>(
    s: Seq<Comprehension>,
    e: &'a Expr,
    c: Coverage,
    x: At<'a>,
    node: Node<'a>,
)
    requires
        c.comprehensions,
        in_clauses(s, *e),
        reaches(walk_expr(e, c, outset()), node),
    ensures
        reaches(walk_comprehensions(s, c, x), node),
    decreases s.len(),
{
    broadcast use lemma_reaches_both;

    lemma_expr_anywhere(e, c, below(x), node);
    let i = choose|i: int|
        0 <= i < s.len() && ((#[trigger] s[i]).target == *e || s[i].iter == *e
            || s[i].ifs@.contains(*e));
    if i < s.len() - 1 {
        assert(s.drop_last()[i] == s[i]);
        lemma_in_clauses(s.drop_last(), e, c, x, node);
    } else {
        if s[i].ifs@.contains(*e) {
            lemma_each_expr(s[i].ifs@, e, c, below(x), node);
        }
        assert(reaches(walk_comprehension(&s.last(), c, x), node));
    }
}

proof fn lemma_in_keywords<'a>(s: Seq<Keyword>, e: &'a Expr, c: Coverage, x: At<'a>, node: Node<'a>)
    requires
        c == expressions(),
        in_keywords(s, *e),
        reaches(walk_expr(e, c, outset()), node),
    ensures
        reaches(walk_keywords(s, c, x), node),
    decreases s.len(),
{
    broadcast use lemma_reaches_both;

    lemma_expr_anywhere(e, c, below(x), node);
    let i = choose|i: int| 0 <= i < s.len() && (#[trigger] s[i]).value == *e;
    if i < s.len() - 1 {
        assert(s.drop_last()[i] == s[i]);
        lemma_in_keywords(s.drop_last(), e, c, x, node);
    } else {
        assert(reaches(walk_keyword(&s.last(), c, x), node));
    }
}

proof fn lemma_in_items<'a>(s: Seq<WithItem>, e: &'a Expr, c: Coverage, x: At<'a>, node: Node<'a>)
    requires
        c.with_items,
        in_items(s, *e),
        reaches(walk_expr(e, c, outset()), node),
    ensures
        reaches(walk_with_items(s, c, x), node),
    decreases s.len(),
{
    broadcast use lemma_reaches_both;

    lemma_expr_anywhere(e, c, below(x), node);
    let i = choose|i: int|
        0 <= i < s.len() && ((#[trigger] s[i]).context_expr == *e || s[i].optional_vars == Some(
            Box::new(*e),
        ));
    if i < s.len() - 1 {
        assert(s.drop_last()[i] == s[i]);
        lemma_in_items(s.drop_last(), e, c, x, node);
    }
}

proof fn lemma_caught<'a>(
    s: Seq<ExceptHandler>,
    e: &'a Expr,
    c: Coverage,
    x: At<'a>,
    node: Node<'a>,
)
    requires
        is_caught(s, *e),
        reaches(walk_expr(e, c, outset()), node),
    ensures
        reaches(walk_handlers(s, c, x), node),
{
    broadcast use lemma_reaches_both;

    lemma_expr_anywhere(e, c, within(x), node);
    let i = choose|i: int|
        0 <= i < s.len() && match #[trigger] s[i] {
            ExceptHandler::ExceptHandler(n) => n.type_ == Some(Box::new(*e)),
        };
    assert(reaches(walk_handler(&s[i], c, x), node));
    lemma_each_handler(s, i, c, x, node);
}

/// Whether a walk goes into lambdas and comprehensions.
pub open spec fn enters_operands(c: Coverage) -> bool {
    c.lambdas && c.comprehensions
}

/// Whether an expression is an operand of another, but not as a parameter's annotation or
/// default, nor as the value of a keyword argument.
pub open spec fn is_plain_operand(outer: Expr, e: Expr) -> bool {
    has_operand(outer, e) && match outer {
        Expr::Lambda(n) => *n.body == e,
        Expr::Call(n) => *n.func == e || n.args@.contains(e),
        _ => true,
    }
}

/// Whether an expression is the name `dict` at the head of `dict[...]`.
pub open spec fn is_dict_head(outer: Expr, e: Expr) -> bool {
    outer matches Expr::Subscript(n) && is_dict_name(&*n.value) && *n.slice != e
}

/// Whether an expression stands directly in a statement, but not as a parameter's annotation or
/// default, nor as the value of a keyword argument.
pub open spec fn is_plain_expression(s: Stmt, e: Expr) -> bool {
    has_expression(s, e) && match s {
        Stmt::FunctionDef(n) => n.decorator_list@.contains(e) || n.returns == Some(Box::new(e)),
        Stmt::AsyncFunctionDef(n) => n.decorator_list@.contains(e) || n.returns == Some(
            Box::new(e),
        ),
        Stmt::ClassDef(n) => n.bases@.contains(e) || n.decorator_list@.contains(e),
        _ => true,
    }
}

/// Whether a line of expressions leads inward from a statement in this way.
pub open spec fn is_plain_line(s: Stmt, line: Seq<Expr>) -> bool {
    &&& leads_down(s, line)
    &&& is_plain_expression(s, line[0])
    &&& forall|k: int| 0 <= k < line.len() - 1 ==> is_plain_operand(line[k], #[trigger] line[k + 1])
}

pub proof fn lemma_operands_are_entered<'a>(
    outer: &'a Expr,
    e: &'a Expr,
    c: Coverage,
    x: At<'a>,
    node: Node<'a>,
)
    requires
        enters_operands(c),
        has_operand(*outer, *e),
        c == expressions() || is_plain_operand(*outer, *e),
        c.dict_heads || !is_dict_head(*outer, *e),
        reaches(walk_expr(e, c, outset()), node),
    ensures
        reaches(walk_expr(outer, c, x), node),
{
    broadcast use lemma_reaches_both;

    let y = below(x);
    lemma_expr_anywhere(e, c, y, node);
    match outer {
        Expr::Lambda(n) => {
            if *n.body != *e {
                lemma_in_arguments(&n.args, e, c, y, node);
            }
        },
        Expr::BoolOp(n) => lemma_each_expr(n.values@, e, c, y, node),
        Expr::Dict(n) => {
            if n.keys@.contains(Some(*e)) {
                lemma_each_opt_expr(n.keys@, e, c, y, node);
            } else {
                lemma_each_expr(n.values@, e, c, y, node);
            }
        },
        Expr::Set(n) => lemma_each_expr(n.elts@, e, c, y, node),
        Expr::ListComp(n) => {
            if in_clauses(n.generators@, *e) {
                lemma_in_clauses(n.generators@, e, c, y, node);
            }
        },
        Expr::SetComp(n) => {
            if in_clauses(n.generators@, *e) {
                lemma_in_clauses(n.generators@, e, c, y, node);
            }
        },
        Expr::DictComp(n) => {
            if in_clauses(n.generators@, *e) {
                lemma_in_clauses(n.generators@, e, c, y, node);
            }
        },
        Expr::GeneratorExp(n) => {
            if in_clauses(n.generators@, *e) {
                lemma_in_clauses(n.generators@, e, c, y, node);
            }
        },
        Expr::Compare(n) => {
            if n.comparators@.contains(*e) {
                lemma_each_expr(n.comparators@, e, c, y, node);
            }
        },
        Expr::Call(n) => {
            if n.args@.contains(*e) {
                lemma_each_expr(n.args@, e, c, y, node);
            } else if *n.func != *e {
                lemma_in_keywords(n.keywords@, e, c, y, node);
            }
        },
        Expr::JoinedStr(n) => lemma_each_expr(n.values@, e, c, y, node),
        Expr::List(n) => lemma_each_expr(n.elts@, e, c, y, node),
        Expr::Tuple(n) => lemma_each_expr(n.elts@, e, c, y, node),
        _ => {},
    }
    assert(reaches(expr_parts(outer, c, y), node));
}

proof fn lemma_expressions_are_entered<'a>(
    s: &'a Stmt,
    e: &'a Expr,
    c: Coverage,
    x: At<'a>,
    node: Node<'a>,
)
    requires
        enters_blocks(c),
        enters_operands(c),
        c.with_items,
        has_expression(*s, *e),
        c == expressions() || is_plain_expression(*s, *e),
        reaches(walk_expr(e, c, outset()), node),
    ensures
        reaches(walk_stmt(s, c, x), node),
{
    broadcast use lemma_reaches_both;

    let y = inside(s, x);
    lemma_expr_anywhere(e, c, y, node);
    match s {
        Stmt::FunctionDef(n) => {
            if n.decorator_list@.contains(*e) {
                lemma_each_expr(n.decorator_list@, e, c, y, node);
            } else if n.returns != Some(Box::new(*e)) {
                lemma_in_arguments(&n.args, e, c, y, node);
            }
        },
        Stmt::AsyncFunctionDef(n) => {
            if n.decorator_list@.contains(*e) {
                lemma_each_expr(n.decorator_list@, e, c, y, node);
            } else if n.returns != Some(Box::new(*e)) {
                lemma_in_arguments(&n.args, e, c, y, node);
            }
        },
        Stmt::ClassDef(n) => {
            if n.bases@.contains(*e) {
                lemma_each_expr(n.bases@, e, c, y, node);
            } else if n.decorator_list@.contains(*e) {
                lemma_each_expr(n.decorator_list@, e, c, y, node);
            } else {
                lemma_in_keywords(n.keywords@, e, c, y, node);
            }
        },
        Stmt::Delete(n) => lemma_each_expr(n.targets@, e, c, y, node),
        Stmt::Assign(n) => {
            if n.targets@.contains(*e) {
                lemma_each_expr(n.targets@, e, c, y, node);
            }
        },
        Stmt::With(n) => lemma_in_items(n.items@, e, c, y, node),
        Stmt::AsyncWith(n) => lemma_in_items(n.items@, e, c, y, node),
        Stmt::Match(n) => {
            if *n.subject != *e {
                let i = choose|i: int|
                    0 <= i < n.cases@.len() && (#[trigger] n.cases@[i]).guard == Some(
                        Box::new(*e),
                    );
                lemma_expr_anywhere(e, c, below(y), node);
                assert(reaches(walk_case(&n.cases@[i], c, y), node));
                lemma_each_case(n.cases@, i, c, y, node);
            }
        },
        Stmt::Try(n) => lemma_caught(n.handlers@, e, c, y, node),
        Stmt::TryStar(n) => lemma_caught(n.handlers@, e, c, y, node),
        _ => {},
    }
    assert(reaches(stmt_parts(s, c, y), node));
}

/// A walk of a statement reaches what the walk of an expression reaches that stands in it.
pub proof fn lemma_reaches_down<'a>(s: &'a Stmt, line: Seq<Expr>, c: Coverage, node: Node<'a>)
    requires
        enters_blocks(c),
        enters_operands(c),
        c.with_items,
        c.dict_heads,
        leads_down(*s, line),
        c == expressions() || is_plain_line(*s, line),
        reaches(walk_expr(&line.last(), c, outset()), node),
    ensures
        reaches(walk_stmt(s, c, outset()), node),
    decreases line.len(),
{
    if line.len() == 1 {
        lemma_expressions_are_entered(s, &line[0], c, outset(), node);
    } else {
        let rest = line.drop_last();
        assert(has_operand(line[line.len() - 2], line[line.len() - 2 + 1]));
        if c != expressions() {
            assert(is_plain_operand(line[line.len() - 2], line[line.len() - 2 + 1]));
            assert forall|k: int| 0 <= k < rest.len() - 1 implies is_plain_operand(
                rest[k],
                #[trigger] rest[k + 1],
            ) by {
                assert(rest[k + 1] == line[k + 1]);
                assert(rest[k] == line[k]);
            }
        }
        lemma_operands_are_entered(&rest.last(), &line.last(), c, outset(), node);
        assert forall|k: int| 0 <= k < rest.len() - 1 implies has_operand(
            rest[k],
            #[trigger] rest[k + 1],
        ) by {
            assert(rest[k + 1] == line[k + 1]);
            assert(rest[k] == line[k]);
        }
        lemma_reaches_down(s, rest, c, node);
    }
}

/// A walk finds every expression that stands in a statement.
pub proof fn law_expressions_are_found_in(s: &Stmt, line: Seq<Expr>, e: &Expr)
    requires
        leads_down(*s, line),
        line.last() == *e,
    ensures
        reaches(walk_stmt(s, expressions(), outset()), Node::Expr(e)),
{
    assert(walk_expr(e, expressions(), outset())[0].node == Node::Expr(e));
    lemma_reaches_down(s, line, expressions(), Node::Expr(e));
}

/// A walk finds every expression that stands in the body.
pub proof fn law_expressions_are_found(body: Seq<Stmt>, e: &Expr)
    requires
        expression_in(body, *e),
    ensures
        reaches(walk_stmts(body, expressions(), outset()), Node::Expr(e)),
{
    let (s, line) = choose|s: Stmt, line: Seq<Expr>| #[trigger]
        stands_in(body, s) && #[trigger] leads_down(s, line) && line.last() == *e;
    law_expressions_are_found_in(&s, line, e);
    let inward = choose|l: Seq<Stmt>| #[trigger] leads_inward(body, l) && l.last() == s;
    lemma_reaches_inward(body, inward, expressions(), Node::Expr(e));
}

} // verus!
