//! What walks reach, wherever they begin: the nodes of a tree do not depend on where the
//! tree stands, and neither do the blocks and classes around them within it.

use crate::walk::{
    at_stmt, below, expr_parts, inside, is_dict_name, outset, stmt_parts, stops_at_stmt,
    walk_arguments, walk_case, walk_cases, walk_comprehension, walk_comprehensions, walk_expr,
    walk_exprs, walk_handler, walk_handlers, walk_keyword, walk_keywords, walk_opt_arg,
    walk_opt_expr, walk_opt_exprs, walk_opt_pattern, walk_params, walk_pattern, walk_patterns,
    walk_stmt, walk_stmts, walk_type_params, walk_with_item, walk_with_items, within, At, Coverage,
    Seen,
};
use rustpython_ast::{
    Arg, ArgWithDefault, Arguments, Comprehension, ExceptHandler, Expr, Keyword, MatchCase, Pattern,
    Stmt, TypeParam, WithItem,
};
use vstd::prelude::*;

verus! {

// ── Moving a walk ───────────────────────────────────────────────────────────

/// A place within a tree that itself stands at `by`.
pub open spec fn moved<'a>(x: At<'a>, by: At<'a>) -> At<'a> {
    At {
        depth: x.depth + by.depth,
        nesting: x.nesting + by.nesting,
        class: match x.class {
            Some(_) => x.class,
            None => by.class,
        },
    }
}

/// A visit within a tree that itself stands at `by`.
pub open spec fn moving<'a>(by: At<'a>) -> spec_fn(Seen<'a>) -> Seen<'a> {
    |v: Seen<'a>|
        Seen {
            node: v.node,
            depth: v.depth + by.depth,
            nesting: v.nesting + by.nesting,
            class: match v.class {
                Some(_) => v.class,
                None => by.class,
            },
        }
}

broadcast proof fn lemma_map_both<A, B>(a: Seq<A>, b: Seq<A>, f: spec_fn(A) -> B)
    ensures
        #[trigger] (a + b).map_values(f) == a.map_values(f) + b.map_values(f),
{
    assert((a + b).map_values(f) =~= a.map_values(f) + b.map_values(f));
}

pub proof fn lemma_moved_stmt<'a>(s: &'a Stmt, c: Coverage, x: At<'a>, by: At<'a>)
    ensures
        walk_stmt(s, c, moved(x, by)) == walk_stmt(s, c, x).map_values(moving(by)),
    decreases s, 1nat,
{
    broadcast use lemma_map_both;

    if !stops_at_stmt(s, c) {
        lemma_moved_parts(s, c, inside(s, x), by);
        assert(inside(s, moved(x, by)) == moved(inside(s, x), by));
    }
    assert(at_stmt(s, moved(x, by)) == moved(at_stmt(s, x), by));
    assert(walk_stmt(s, c, moved(x, by)) =~= walk_stmt(s, c, x).map_values(moving(by)));
}

pub proof fn lemma_moved_parts<'a>(s: &'a Stmt, c: Coverage, x: At<'a>, by: At<'a>)
    ensures
        stmt_parts(s, c, moved(x, by)) == stmt_parts(s, c, x).map_values(moving(by)),
    decreases s, 0nat,
{
    broadcast use lemma_map_both;

    match s {
        Stmt::FunctionDef(n) => {
            lemma_moved_arguments(&n.args, c, x, by);
            lemma_moved_stmts(n.body@, c, x, by);
            lemma_moved_exprs(n.decorator_list@, c, x, by);
            lemma_moved_opt_expr(n.returns, c, x, by);
            lemma_moved_type_params(n.type_params@, c, x, by);
        },
        Stmt::AsyncFunctionDef(n) => {
            lemma_moved_arguments(&n.args, c, x, by);
            lemma_moved_stmts(n.body@, c, x, by);
            lemma_moved_exprs(n.decorator_list@, c, x, by);
            lemma_moved_opt_expr(n.returns, c, x, by);
            lemma_moved_type_params(n.type_params@, c, x, by);
        },
        Stmt::ClassDef(n) => {
            lemma_moved_exprs(n.bases@, c, x, by);
            lemma_moved_keywords(n.keywords@, c, x, by);
            lemma_moved_stmts(n.body@, c, x, by);
            lemma_moved_exprs(n.decorator_list@, c, x, by);
            lemma_moved_type_params(n.type_params@, c, x, by);
        },
        Stmt::Return(n) => {
            lemma_moved_opt_expr(n.value, c, x, by);
        },
        Stmt::Delete(n) => {
            lemma_moved_exprs(n.targets@, c, x, by);
        },
        Stmt::Assign(n) => {
            lemma_moved_exprs(n.targets@, c, x, by);
            lemma_moved_expr(&n.value, c, x, by);
        },
        Stmt::TypeAlias(n) => {
            lemma_moved_expr(&n.name, c, x, by);
            lemma_moved_type_params(n.type_params@, c, x, by);
            lemma_moved_expr(&n.value, c, x, by);
        },
        Stmt::AugAssign(n) => {
            lemma_moved_expr(&n.target, c, x, by);
            lemma_moved_expr(&n.value, c, x, by);
        },
        Stmt::AnnAssign(n) => {
            lemma_moved_expr(&n.target, c, x, by);
            lemma_moved_expr(&n.annotation, c, x, by);
            lemma_moved_opt_expr(n.value, c, x, by);
        },
        Stmt::For(n) => {
            lemma_moved_expr(&n.target, c, x, by);
            lemma_moved_expr(&n.iter, c, x, by);
            lemma_moved_stmts(n.body@, c, x, by);
            lemma_moved_stmts(n.orelse@, c, x, by);
        },
        Stmt::AsyncFor(n) => {
            lemma_moved_expr(&n.target, c, x, by);
            lemma_moved_expr(&n.iter, c, x, by);
            lemma_moved_stmts(n.body@, c, x, by);
            lemma_moved_stmts(n.orelse@, c, x, by);
        },
        Stmt::While(n) => {
            lemma_moved_expr(&n.test, c, x, by);
            lemma_moved_stmts(n.body@, c, x, by);
            lemma_moved_stmts(n.orelse@, c, x, by);
        },
        Stmt::If(n) => {
            lemma_moved_expr(&n.test, c, x, by);
            lemma_moved_stmts(n.body@, c, x, by);
            lemma_moved_stmts(n.orelse@, c, x, by);
        },
        Stmt::With(n) => {
            lemma_moved_with_items(n.items@, c, x, by);
            lemma_moved_stmts(n.body@, c, x, by);
        },
        Stmt::AsyncWith(n) => {
            lemma_moved_with_items(n.items@, c, x, by);
            lemma_moved_stmts(n.body@, c, x, by);
        },
        Stmt::Match(n) => {
            lemma_moved_expr(&n.subject, c, x, by);
            lemma_moved_cases(n.cases@, c, x, by);
        },
        Stmt::Raise(n) => {
            lemma_moved_opt_expr(n.exc, c, x, by);
            lemma_moved_opt_expr(n.cause, c, x, by);
        },
        Stmt::Try(n) => {
            lemma_moved_stmts(n.body@, c, x, by);
            lemma_moved_handlers(n.handlers@, c, x, by);
            lemma_moved_stmts(n.orelse@, c, x, by);
            lemma_moved_stmts(n.finalbody@, c, x, by);
        },
        Stmt::TryStar(n) => {
            lemma_moved_stmts(n.body@, c, x, by);
            lemma_moved_handlers(n.handlers@, c, x, by);
            lemma_moved_stmts(n.orelse@, c, x, by);
            lemma_moved_stmts(n.finalbody@, c, x, by);
        },
        Stmt::Assert(n) => {
            lemma_moved_expr(&n.test, c, x, by);
            lemma_moved_opt_expr(n.msg, c, x, by);
        },
        Stmt::Expr(n) => {
            lemma_moved_expr(&n.value, c, x, by);
        },
        _ => {},
    }
    assert(stmt_parts(s, c, moved(x, by)) =~= stmt_parts(s, c, x).map_values(moving(by)));
}

pub proof fn lemma_moved_stmts<'a>(s: Seq<Stmt>, c: Coverage, x: At<'a>, by: At<'a>)
    ensures
        walk_stmts(s, c, moved(x, by)) == walk_stmts(s, c, x).map_values(moving(by)),
    decreases s, 0nat,
{
    broadcast use lemma_map_both;

    if s.len() > 0 {
        lemma_moved_stmts(s.drop_last(), c, x, by);
        lemma_moved_stmt(&s.last(), c, x, by);
    }
    assert(walk_stmts(s, c, moved(x, by)) =~= walk_stmts(s, c, x).map_values(moving(by)));
}

pub proof fn lemma_moved_handler<'a>(h: &'a ExceptHandler, c: Coverage, x: At<'a>, by: At<'a>)
    ensures
        walk_handler(h, c, moved(x, by)) == walk_handler(h, c, x).map_values(moving(by)),
    decreases h, 0nat,
{
    broadcast use lemma_map_both;

    match h {
        ExceptHandler::ExceptHandler(n) => {
            assert(within(moved(x, by)) == moved(within(x), by));
            lemma_moved_opt_expr(n.type_, c, within(x), by);
            lemma_moved_stmts(n.body@, c, within(x), by);
        },
    }
    assert(walk_handler(h, c, moved(x, by)) =~= walk_handler(h, c, x).map_values(moving(by)));
}

pub proof fn lemma_moved_handlers<'a>(s: Seq<ExceptHandler>, c: Coverage, x: At<'a>, by: At<'a>)
    ensures
        walk_handlers(s, c, moved(x, by)) == walk_handlers(s, c, x).map_values(moving(by)),
    decreases s, 0nat,
{
    broadcast use lemma_map_both;

    if s.len() > 0 {
        lemma_moved_handlers(s.drop_last(), c, x, by);
        lemma_moved_handler(&s.last(), c, x, by);
    }
    assert(walk_handlers(s, c, moved(x, by)) =~= walk_handlers(s, c, x).map_values(moving(by)));
}

pub proof fn lemma_moved_expr<'a>(e: &'a Expr, c: Coverage, x: At<'a>, by: At<'a>)
    ensures
        walk_expr(e, c, moved(x, by)) == walk_expr(e, c, x).map_values(moving(by)),
    decreases e, 1nat,
{
    broadcast use lemma_map_both;

    lemma_moved_operands(e, c, below(x), by);
    assert(below(moved(x, by)) == moved(below(x), by));
    assert(walk_expr(e, c, moved(x, by)) =~= walk_expr(e, c, x).map_values(moving(by)));
}

pub proof fn lemma_moved_operands<'a>(e: &'a Expr, c: Coverage, x: At<'a>, by: At<'a>)
    ensures
        expr_parts(e, c, moved(x, by)) == expr_parts(e, c, x).map_values(moving(by)),
    decreases e, 0nat,
{
    broadcast use lemma_map_both;

    match e {
        Expr::Lambda(n) => {
            if c.lambdas {
                lemma_moved_arguments(&n.args, c, x, by);
                lemma_moved_expr(&n.body, c, x, by);
            }
        },
        Expr::Subscript(n) => {
            if c.dict_heads || !is_dict_name(&n.value) {
                lemma_moved_expr(&n.value, c, x, by);
            }
            lemma_moved_expr(&n.slice, c, x, by);
        },
        Expr::BoolOp(n) => {
            lemma_moved_exprs(n.values@, c, x, by);
        },
        Expr::NamedExpr(n) => {
            lemma_moved_expr(&n.target, c, x, by);
            lemma_moved_expr(&n.value, c, x, by);
        },
        Expr::BinOp(n) => {
            lemma_moved_expr(&n.left, c, x, by);
            lemma_moved_expr(&n.right, c, x, by);
        },
        Expr::UnaryOp(n) => {
            lemma_moved_expr(&n.operand, c, x, by);
        },
        Expr::IfExp(n) => {
            lemma_moved_expr(&n.test, c, x, by);
            lemma_moved_expr(&n.body, c, x, by);
            lemma_moved_expr(&n.orelse, c, x, by);
        },
        Expr::Dict(n) => {
            lemma_moved_opt_exprs(n.keys@, c, x, by);
            lemma_moved_exprs(n.values@, c, x, by);
        },
        Expr::Set(n) => {
            lemma_moved_exprs(n.elts@, c, x, by);
        },
        Expr::ListComp(n) => {
            lemma_moved_expr(&n.elt, c, x, by);
            lemma_moved_comprehensions(n.generators@, c, x, by);
        },
        Expr::SetComp(n) => {
            lemma_moved_expr(&n.elt, c, x, by);
            lemma_moved_comprehensions(n.generators@, c, x, by);
        },
        Expr::DictComp(n) => {
            lemma_moved_expr(&n.key, c, x, by);
            lemma_moved_expr(&n.value, c, x, by);
            lemma_moved_comprehensions(n.generators@, c, x, by);
        },
        Expr::GeneratorExp(n) => {
            lemma_moved_expr(&n.elt, c, x, by);
            lemma_moved_comprehensions(n.generators@, c, x, by);
        },
        Expr::Await(n) => {
            lemma_moved_expr(&n.value, c, x, by);
        },
        Expr::Yield(n) => {
            lemma_moved_opt_expr(n.value, c, x, by);
        },
        Expr::YieldFrom(n) => {
            lemma_moved_expr(&n.value, c, x, by);
        },
        Expr::Compare(n) => {
            lemma_moved_expr(&n.left, c, x, by);
            lemma_moved_exprs(n.comparators@, c, x, by);
        },
        Expr::Call(n) => {
            lemma_moved_expr(&n.func, c, x, by);
            lemma_moved_exprs(n.args@, c, x, by);
            lemma_moved_keywords(n.keywords@, c, x, by);
        },
        Expr::FormattedValue(n) => {
            lemma_moved_expr(&n.value, c, x, by);
            lemma_moved_opt_expr(n.format_spec, c, x, by);
        },
        Expr::JoinedStr(n) => {
            lemma_moved_exprs(n.values@, c, x, by);
        },
        Expr::Attribute(n) => {
            lemma_moved_expr(&n.value, c, x, by);
        },
        Expr::Starred(n) => {
            lemma_moved_expr(&n.value, c, x, by);
        },
        Expr::List(n) => {
            lemma_moved_exprs(n.elts@, c, x, by);
        },
        Expr::Tuple(n) => {
            lemma_moved_exprs(n.elts@, c, x, by);
        },
        Expr::Slice(n) => {
            lemma_moved_opt_expr(n.lower, c, x, by);
            lemma_moved_opt_expr(n.upper, c, x, by);
            lemma_moved_opt_expr(n.step, c, x, by);
        },
        _ => {},
    }
    assert(expr_parts(e, c, moved(x, by)) =~= expr_parts(e, c, x).map_values(moving(by)));
}

pub proof fn lemma_moved_opt_expr<'a>(e: Option<Box<Expr>>, c: Coverage, x: At<'a>, by: At<'a>)
    ensures
        walk_opt_expr(e, c, moved(x, by)) == walk_opt_expr(e, c, x).map_values(moving(by)),
    decreases e, 0nat,
{
    broadcast use lemma_map_both;

    if let Some(e) = e {
        lemma_moved_expr(&*e, c, x, by);
    }
    assert(walk_opt_expr(e, c, moved(x, by)) =~= walk_opt_expr(e, c, x).map_values(moving(by)));
}

pub proof fn lemma_moved_exprs<'a>(s: Seq<Expr>, c: Coverage, x: At<'a>, by: At<'a>)
    ensures
        walk_exprs(s, c, moved(x, by)) == walk_exprs(s, c, x).map_values(moving(by)),
    decreases s, 0nat,
{
    broadcast use lemma_map_both;

    if s.len() > 0 {
        lemma_moved_exprs(s.drop_last(), c, x, by);
        lemma_moved_expr(&s.last(), c, x, by);
    }
    assert(walk_exprs(s, c, moved(x, by)) =~= walk_exprs(s, c, x).map_values(moving(by)));
}

pub proof fn lemma_moved_opt_exprs<'a>(s: Seq<Option<Expr>>, c: Coverage, x: At<'a>, by: At<'a>)
    ensures
        walk_opt_exprs(s, c, moved(x, by)) == walk_opt_exprs(s, c, x).map_values(moving(by)),
    decreases s, 0nat,
{
    broadcast use lemma_map_both;

    if s.len() > 0 {
        lemma_moved_opt_exprs(s.drop_last(), c, x, by);
        if let Some(e) = s.last() {
            lemma_moved_expr(&e, c, x, by);
        }
    }
    assert(walk_opt_exprs(s, c, moved(x, by)) =~= walk_opt_exprs(s, c, x).map_values(moving(by)));
}

pub proof fn lemma_moved_arguments<'a>(a: &'a Arguments, c: Coverage, x: At<'a>, by: At<'a>)
    ensures
        walk_arguments(a, c, moved(x, by)) == walk_arguments(a, c, x).map_values(moving(by)),
    decreases a, 0nat,
{
    broadcast use lemma_map_both;

    assert(below(moved(x, by)) == moved(below(x), by));
    lemma_moved_params(a.posonlyargs@, c, below(x), by);
    lemma_moved_params(a.args@, c, below(x), by);
    lemma_moved_params(a.kwonlyargs@, c, below(x), by);
    lemma_moved_opt_arg(a.vararg, c, below(x), by);
    lemma_moved_opt_arg(a.kwarg, c, below(x), by);
    assert(walk_arguments(a, c, moved(x, by)) =~= walk_arguments(a, c, x).map_values(moving(by)));
}

pub proof fn lemma_moved_opt_arg<'a>(a: Option<Box<Arg>>, c: Coverage, x: At<'a>, by: At<'a>)
    ensures
        walk_opt_arg(a, c, moved(x, by)) == walk_opt_arg(a, c, x).map_values(moving(by)),
    decreases a, 0nat,
{
    broadcast use lemma_map_both;

    if let Some(a) = a {
        lemma_moved_opt_expr(a.annotation, c, x, by);
    }
    assert(walk_opt_arg(a, c, moved(x, by)) =~= walk_opt_arg(a, c, x).map_values(moving(by)));
}

pub proof fn lemma_moved_params<'a>(s: Seq<ArgWithDefault>, c: Coverage, x: At<'a>, by: At<'a>)
    ensures
        walk_params(s, c, moved(x, by)) == walk_params(s, c, x).map_values(moving(by)),
    decreases s, 0nat,
{
    broadcast use lemma_map_both;

    if s.len() > 0 {
        lemma_moved_params(s.drop_last(), c, x, by);
        lemma_moved_opt_expr(s.last().def.annotation, c, x, by);
        lemma_moved_opt_expr(s.last().default, c, x, by);
    }
    assert(walk_params(s, c, moved(x, by)) =~= walk_params(s, c, x).map_values(moving(by)));
}

pub proof fn lemma_moved_comprehension<'a>(n: &'a Comprehension, c: Coverage, x: At<'a>, by: At<'a>)
    ensures
        walk_comprehension(n, c, moved(x, by)) == walk_comprehension(n, c, x).map_values(moving(by)),
    decreases n, 0nat,
{
    broadcast use lemma_map_both;

    assert(below(moved(x, by)) == moved(below(x), by));
    lemma_moved_expr(&n.target, c, below(x), by);
    lemma_moved_expr(&n.iter, c, below(x), by);
    lemma_moved_exprs(n.ifs@, c, below(x), by);
    assert(walk_comprehension(n, c, moved(x, by)) =~= walk_comprehension(n, c, x).map_values(moving(by)));
}

pub proof fn lemma_moved_comprehensions<'a>(s: Seq<Comprehension>, c: Coverage, x: At<'a>, by: At<'a>)
    ensures
        walk_comprehensions(s, c, moved(x, by)) == walk_comprehensions(s, c, x).map_values(moving(by)),
    decreases s, 0nat,
{
    broadcast use lemma_map_both;

    if s.len() > 0 {
        lemma_moved_comprehensions(s.drop_last(), c, x, by);
        lemma_moved_comprehension(&s.last(), c, x, by);
    }
    assert(walk_comprehensions(s, c, moved(x, by)) =~= walk_comprehensions(s, c, x).map_values(moving(by)));
}

pub proof fn lemma_moved_keyword<'a>(n: &'a Keyword, c: Coverage, x: At<'a>, by: At<'a>)
    ensures
        walk_keyword(n, c, moved(x, by)) == walk_keyword(n, c, x).map_values(moving(by)),
    decreases n, 0nat,
{
    broadcast use lemma_map_both;

    assert(below(moved(x, by)) == moved(below(x), by));
    lemma_moved_expr(&n.value, c, below(x), by);
    assert(walk_keyword(n, c, moved(x, by)) =~= walk_keyword(n, c, x).map_values(moving(by)));
}

pub proof fn lemma_moved_keywords<'a>(s: Seq<Keyword>, c: Coverage, x: At<'a>, by: At<'a>)
    ensures
        walk_keywords(s, c, moved(x, by)) == walk_keywords(s, c, x).map_values(moving(by)),
    decreases s, 0nat,
{
    broadcast use lemma_map_both;

    if s.len() > 0 {
        lemma_moved_keywords(s.drop_last(), c, x, by);
        lemma_moved_keyword(&s.last(), c, x, by);
    }
    assert(walk_keywords(s, c, moved(x, by)) =~= walk_keywords(s, c, x).map_values(moving(by)));
}

pub proof fn lemma_moved_with_item<'a>(n: &'a WithItem, c: Coverage, x: At<'a>, by: At<'a>)
    ensures
        walk_with_item(n, c, moved(x, by)) == walk_with_item(n, c, x).map_values(moving(by)),
    decreases n, 0nat,
{
    broadcast use lemma_map_both;

    assert(below(moved(x, by)) == moved(below(x), by));
    lemma_moved_expr(&n.context_expr, c, below(x), by);
    lemma_moved_opt_expr(n.optional_vars, c, below(x), by);
    assert(walk_with_item(n, c, moved(x, by)) =~= walk_with_item(n, c, x).map_values(moving(by)));
}

pub proof fn lemma_moved_with_items<'a>(s: Seq<WithItem>, c: Coverage, x: At<'a>, by: At<'a>)
    ensures
        walk_with_items(s, c, moved(x, by)) == walk_with_items(s, c, x).map_values(moving(by)),
    decreases s, 0nat,
{
    broadcast use lemma_map_both;

    if s.len() > 0 {
        lemma_moved_with_items(s.drop_last(), c, x, by);
        lemma_moved_with_item(&s.last(), c, x, by);
    }
    assert(walk_with_items(s, c, moved(x, by)) =~= walk_with_items(s, c, x).map_values(moving(by)));
}

pub proof fn lemma_moved_case<'a>(n: &'a MatchCase, c: Coverage, x: At<'a>, by: At<'a>)
    ensures
        walk_case(n, c, moved(x, by)) == walk_case(n, c, x).map_values(moving(by)),
    decreases n, 0nat,
{
    broadcast use lemma_map_both;

    assert(below(moved(x, by)) == moved(below(x), by));
    lemma_moved_pattern(&n.pattern, c, below(x), by);
    lemma_moved_opt_expr(n.guard, c, below(x), by);
    lemma_moved_stmts(n.body@, c, below(x), by);
    assert(walk_case(n, c, moved(x, by)) =~= walk_case(n, c, x).map_values(moving(by)));
}

pub proof fn lemma_moved_cases<'a>(s: Seq<MatchCase>, c: Coverage, x: At<'a>, by: At<'a>)
    ensures
        walk_cases(s, c, moved(x, by)) == walk_cases(s, c, x).map_values(moving(by)),
    decreases s, 0nat,
{
    broadcast use lemma_map_both;

    if s.len() > 0 {
        lemma_moved_cases(s.drop_last(), c, x, by);
        lemma_moved_case(&s.last(), c, x, by);
    }
    assert(walk_cases(s, c, moved(x, by)) =~= walk_cases(s, c, x).map_values(moving(by)));
}

pub proof fn lemma_moved_pattern<'a>(p: &'a Pattern, c: Coverage, x: At<'a>, by: At<'a>)
    ensures
        walk_pattern(p, c, moved(x, by)) == walk_pattern(p, c, x).map_values(moving(by)),
    decreases p, 0nat,
{
    broadcast use lemma_map_both;

    match p {
        Pattern::MatchValue(n) => {
            lemma_moved_expr(&n.value, c, x, by);
        },
        Pattern::MatchSequence(n) => {
            lemma_moved_patterns(n.patterns@, c, x, by);
        },
        Pattern::MatchMapping(n) => {
            lemma_moved_exprs(n.keys@, c, x, by);
            lemma_moved_patterns(n.patterns@, c, x, by);
        },
        Pattern::MatchClass(n) => {
            lemma_moved_expr(&n.cls, c, x, by);
            lemma_moved_patterns(n.patterns@, c, x, by);
            lemma_moved_patterns(n.kwd_patterns@, c, x, by);
        },
        Pattern::MatchAs(n) => {
            lemma_moved_opt_pattern(n.pattern, c, x, by);
        },
        Pattern::MatchOr(n) => {
            lemma_moved_patterns(n.patterns@, c, x, by);
        },
        _ => {},
    }
    assert(walk_pattern(p, c, moved(x, by)) =~= walk_pattern(p, c, x).map_values(moving(by)));
}

pub proof fn lemma_moved_opt_pattern<'a>(p: Option<Box<Pattern>>, c: Coverage, x: At<'a>, by: At<'a>)
    ensures
        walk_opt_pattern(p, c, moved(x, by)) == walk_opt_pattern(p, c, x).map_values(moving(by)),
    decreases p, 0nat,
{
    broadcast use lemma_map_both;

    if let Some(p) = p {
        lemma_moved_pattern(&*p, c, x, by);
    }
    assert(walk_opt_pattern(p, c, moved(x, by)) =~= walk_opt_pattern(p, c, x).map_values(moving(by)));
}

pub proof fn lemma_moved_patterns<'a>(s: Seq<Pattern>, c: Coverage, x: At<'a>, by: At<'a>)
    ensures
        walk_patterns(s, c, moved(x, by)) == walk_patterns(s, c, x).map_values(moving(by)),
    decreases s, 0nat,
{
    broadcast use lemma_map_both;

    if s.len() > 0 {
        lemma_moved_patterns(s.drop_last(), c, x, by);
        lemma_moved_pattern(&s.last(), c, x, by);
    }
    assert(walk_patterns(s, c, moved(x, by)) =~= walk_patterns(s, c, x).map_values(moving(by)));
}

pub proof fn lemma_moved_type_params<'a>(s: Seq<TypeParam>, c: Coverage, x: At<'a>, by: At<'a>)
    ensures
        walk_type_params(s, c, moved(x, by)) == walk_type_params(s, c, x).map_values(moving(by)),
    decreases s, 0nat,
{
    broadcast use lemma_map_both;

    if s.len() > 0 {
        lemma_moved_type_params(s.drop_last(), c, x, by);
        if let TypeParam::TypeVar(n) = s.last() {
            lemma_moved_opt_expr(n.bound, c, x, by);
        }
    }
    assert(walk_type_params(s, c, moved(x, by)) =~= walk_type_params(s, c, x).map_values(moving(by)));
}

// ── Expressions ─────────────────────────────────────────────────────────────

/// Whether all visits stand in the blocks and the class around `x`, and none of them is a
/// statement, a handler or a case.
pub open spec fn plain<'a>(v: Seq<Seen<'a>>, x: At<'a>) -> bool {
    forall|i: int|
        0 <= i < v.len() ==> (#[trigger] v[i]).nesting == x.nesting && v[i].class == x.class
            && !(v[i].node is Stmt) && !(v[i].node is Handler) && !(v[i].node is Case)
}

broadcast proof fn lemma_plain_both<'a>(a: Seq<Seen<'a>>, b: Seq<Seen<'a>>, x: At<'a>)
    requires
        plain(a, x),
        plain(b, x),
    ensures
        #[trigger] plain(a + b, x),
{
}

pub proof fn lemma_plain_expr<'a>(e: &'a Expr, c: Coverage, x: At<'a>)
    ensures
        plain(walk_expr(e, c, x), x),
    decreases e, 1nat,
{
    broadcast use lemma_plain_both;

    lemma_plain_operands(e, c, below(x));
    assert(plain(expr_parts(e, c, below(x)), x));
}

pub proof fn lemma_plain_operands<'a>(e: &'a Expr, c: Coverage, x: At<'a>)
    ensures
        plain(expr_parts(e, c, x), x),
    decreases e, 0nat,
{
    broadcast use lemma_plain_both;

    match e {
        Expr::Lambda(n) => {
            lemma_plain_arguments(&n.args, c, x);
            lemma_plain_expr(&n.body, c, x);
        },
        Expr::Subscript(n) => {
            lemma_plain_expr(&n.value, c, x);
            lemma_plain_expr(&n.slice, c, x);
        },
        Expr::BoolOp(n) => {
            lemma_plain_exprs(n.values@, c, x);
        },
        Expr::NamedExpr(n) => {
            lemma_plain_expr(&n.target, c, x);
            lemma_plain_expr(&n.value, c, x);
        },
        Expr::BinOp(n) => {
            lemma_plain_expr(&n.left, c, x);
            lemma_plain_expr(&n.right, c, x);
        },
        Expr::UnaryOp(n) => {
            lemma_plain_expr(&n.operand, c, x);
        },
        Expr::IfExp(n) => {
            lemma_plain_expr(&n.test, c, x);
            lemma_plain_expr(&n.body, c, x);
            lemma_plain_expr(&n.orelse, c, x);
        },
        Expr::Dict(n) => {
            lemma_plain_opt_exprs(n.keys@, c, x);
            lemma_plain_exprs(n.values@, c, x);
        },
        Expr::Set(n) => {
            lemma_plain_exprs(n.elts@, c, x);
        },
        Expr::ListComp(n) => {
            lemma_plain_expr(&n.elt, c, x);
            lemma_plain_comprehensions(n.generators@, c, x);
        },
        Expr::SetComp(n) => {
            lemma_plain_expr(&n.elt, c, x);
            lemma_plain_comprehensions(n.generators@, c, x);
        },
        Expr::DictComp(n) => {
            lemma_plain_expr(&n.key, c, x);
            lemma_plain_expr(&n.value, c, x);
            lemma_plain_comprehensions(n.generators@, c, x);
        },
        Expr::GeneratorExp(n) => {
            lemma_plain_expr(&n.elt, c, x);
            lemma_plain_comprehensions(n.generators@, c, x);
        },
        Expr::Await(n) => {
            lemma_plain_expr(&n.value, c, x);
        },
        Expr::Yield(n) => {
            lemma_plain_opt_expr(n.value, c, x);
        },
        Expr::YieldFrom(n) => {
            lemma_plain_expr(&n.value, c, x);
        },
        Expr::Compare(n) => {
            lemma_plain_expr(&n.left, c, x);
            lemma_plain_exprs(n.comparators@, c, x);
        },
        Expr::Call(n) => {
            lemma_plain_expr(&n.func, c, x);
            lemma_plain_exprs(n.args@, c, x);
            lemma_plain_keywords(n.keywords@, c, x);
        },
        Expr::FormattedValue(n) => {
            lemma_plain_expr(&n.value, c, x);
            lemma_plain_opt_expr(n.format_spec, c, x);
        },
        Expr::JoinedStr(n) => {
            lemma_plain_exprs(n.values@, c, x);
        },
        Expr::Attribute(n) => {
            lemma_plain_expr(&n.value, c, x);
        },
        Expr::Starred(n) => {
            lemma_plain_expr(&n.value, c, x);
        },
        Expr::List(n) => {
            lemma_plain_exprs(n.elts@, c, x);
        },
        Expr::Tuple(n) => {
            lemma_plain_exprs(n.elts@, c, x);
        },
        Expr::Slice(n) => {
            lemma_plain_opt_expr(n.lower, c, x);
            lemma_plain_opt_expr(n.upper, c, x);
            lemma_plain_opt_expr(n.step, c, x);
        },
        _ => {},
    }
}

pub proof fn lemma_plain_opt_expr<'a>(e: Option<Box<Expr>>, c: Coverage, x: At<'a>)
    ensures
        plain(walk_opt_expr(e, c, x), x),
    decreases e, 0nat,
{
    broadcast use lemma_plain_both;

    if let Some(e) = e {
        lemma_plain_expr(&*e, c, x);
    }
}

pub proof fn lemma_plain_exprs<'a>(s: Seq<Expr>, c: Coverage, x: At<'a>)
    ensures
        plain(walk_exprs(s, c, x), x),
    decreases s, 0nat,
{
    broadcast use lemma_plain_both;

    if s.len() > 0 {
        lemma_plain_exprs(s.drop_last(), c, x);
        lemma_plain_expr(&s.last(), c, x);
    }
}

pub proof fn lemma_plain_opt_exprs<'a>(s: Seq<Option<Expr>>, c: Coverage, x: At<'a>)
    ensures
        plain(walk_opt_exprs(s, c, x), x),
    decreases s, 0nat,
{
    broadcast use lemma_plain_both;

    if s.len() > 0 {
        lemma_plain_opt_exprs(s.drop_last(), c, x);
        if let Some(e) = s.last() {
            lemma_plain_expr(&e, c, x);
        }
    }
}

pub proof fn lemma_plain_arguments<'a>(a: &'a Arguments, c: Coverage, x: At<'a>)
    ensures
        plain(walk_arguments(a, c, x), x),
    decreases a, 0nat,
{
    broadcast use lemma_plain_both;

    lemma_plain_params(a.posonlyargs@, c, below(x));
    lemma_plain_params(a.args@, c, below(x));
    lemma_plain_params(a.kwonlyargs@, c, below(x));
    lemma_plain_opt_arg(a.vararg, c, below(x));
    lemma_plain_opt_arg(a.kwarg, c, below(x));
    assert(plain(walk_params(a.posonlyargs@, c, below(x)), x));
    assert(plain(walk_params(a.args@, c, below(x)), x));
    assert(plain(walk_params(a.kwonlyargs@, c, below(x)), x));
    assert(plain(walk_opt_arg(a.vararg, c, below(x)), x));
    assert(plain(walk_opt_arg(a.kwarg, c, below(x)), x));
}

pub proof fn lemma_plain_opt_arg<'a>(a: Option<Box<Arg>>, c: Coverage, x: At<'a>)
    ensures
        plain(walk_opt_arg(a, c, x), x),
    decreases a, 0nat,
{
    broadcast use lemma_plain_both;

    if let Some(a) = a {
        lemma_plain_opt_expr(a.annotation, c, x);
    }
}

pub proof fn lemma_plain_params<'a>(s: Seq<ArgWithDefault>, c: Coverage, x: At<'a>)
    ensures
        plain(walk_params(s, c, x), x),
    decreases s, 0nat,
{
    broadcast use lemma_plain_both;

    if s.len() > 0 {
        lemma_plain_params(s.drop_last(), c, x);
        lemma_plain_opt_expr(s.last().def.annotation, c, x);
        lemma_plain_opt_expr(s.last().default, c, x);
    }
}

pub proof fn lemma_plain_comprehension<'a>(n: &'a Comprehension, c: Coverage, x: At<'a>)
    ensures
        plain(walk_comprehension(n, c, x), x),
    decreases n, 0nat,
{
    broadcast use lemma_plain_both;

    lemma_plain_expr(&n.target, c, below(x));
    lemma_plain_expr(&n.iter, c, below(x));
    lemma_plain_exprs(n.ifs@, c, below(x));
    assert(plain(walk_expr(&n.target, c, below(x)), x));
    assert(plain(walk_expr(&n.iter, c, below(x)), x));
    assert(plain(walk_exprs(n.ifs@, c, below(x)), x));
}

pub proof fn lemma_plain_comprehensions<'a>(s: Seq<Comprehension>, c: Coverage, x: At<'a>)
    ensures
        plain(walk_comprehensions(s, c, x), x),
    decreases s, 0nat,
{
    broadcast use lemma_plain_both;

    if s.len() > 0 {
        lemma_plain_comprehensions(s.drop_last(), c, x);
        lemma_plain_comprehension(&s.last(), c, x);
    }
}

pub proof fn lemma_plain_keyword<'a>(n: &'a Keyword, c: Coverage, x: At<'a>)
    ensures
        plain(walk_keyword(n, c, x), x),
    decreases n, 0nat,
{
    broadcast use lemma_plain_both;

    lemma_plain_expr(&n.value, c, below(x));
    assert(plain(walk_expr(&n.value, c, below(x)), x));
}

pub proof fn lemma_plain_keywords<'a>(s: Seq<Keyword>, c: Coverage, x: At<'a>)
    ensures
        plain(walk_keywords(s, c, x), x),
    decreases s, 0nat,
{
    broadcast use lemma_plain_both;

    if s.len() > 0 {
        lemma_plain_keywords(s.drop_last(), c, x);
        lemma_plain_keyword(&s.last(), c, x);
    }
}

pub proof fn lemma_plain_with_item<'a>(n: &'a WithItem, c: Coverage, x: At<'a>)
    ensures
        plain(walk_with_item(n, c, x), x),
    decreases n, 0nat,
{
    broadcast use lemma_plain_both;

    lemma_plain_expr(&n.context_expr, c, below(x));
    lemma_plain_opt_expr(n.optional_vars, c, below(x));
    assert(plain(walk_expr(&n.context_expr, c, below(x)), x));
    assert(plain(walk_opt_expr(n.optional_vars, c, below(x)), x));
}

pub proof fn lemma_plain_with_items<'a>(s: Seq<WithItem>, c: Coverage, x: At<'a>)
    ensures
        plain(walk_with_items(s, c, x), x),
    decreases s, 0nat,
{
    broadcast use lemma_plain_both;

    if s.len() > 0 {
        lemma_plain_with_items(s.drop_last(), c, x);
        lemma_plain_with_item(&s.last(), c, x);
    }
}

pub proof fn lemma_plain_pattern<'a>(p: &'a Pattern, c: Coverage, x: At<'a>)
    ensures
        plain(walk_pattern(p, c, x), x),
    decreases p, 0nat,
{
    broadcast use lemma_plain_both;

    match p {
        Pattern::MatchValue(n) => {
            lemma_plain_expr(&n.value, c, x);
        },
        Pattern::MatchSequence(n) => {
            lemma_plain_patterns(n.patterns@, c, x);
        },
        Pattern::MatchMapping(n) => {
            lemma_plain_exprs(n.keys@, c, x);
            lemma_plain_patterns(n.patterns@, c, x);
        },
        Pattern::MatchClass(n) => {
            lemma_plain_expr(&n.cls, c, x);
            lemma_plain_patterns(n.patterns@, c, x);
            lemma_plain_patterns(n.kwd_patterns@, c, x);
        },
        Pattern::MatchAs(n) => {
            lemma_plain_opt_pattern(n.pattern, c, x);
        },
        Pattern::MatchOr(n) => {
            lemma_plain_patterns(n.patterns@, c, x);
        },
        _ => {},
    }
}

pub proof fn lemma_plain_opt_pattern<'a>(p: Option<Box<Pattern>>, c: Coverage, x: At<'a>)
    ensures
        plain(walk_opt_pattern(p, c, x), x),
    decreases p, 0nat,
{
    broadcast use lemma_plain_both;

    if let Some(p) = p {
        lemma_plain_pattern(&*p, c, x);
    }
}

pub proof fn lemma_plain_patterns<'a>(s: Seq<Pattern>, c: Coverage, x: At<'a>)
    ensures
        plain(walk_patterns(s, c, x), x),
    decreases s, 0nat,
{
    broadcast use lemma_plain_both;

    if s.len() > 0 {
        lemma_plain_patterns(s.drop_last(), c, x);
        lemma_plain_pattern(&s.last(), c, x);
    }
}

pub proof fn lemma_plain_type_params<'a>(s: Seq<TypeParam>, c: Coverage, x: At<'a>)
    ensures
        plain(walk_type_params(s, c, x), x),
    decreases s, 0nat,
{
    broadcast use lemma_plain_both;

    if s.len() > 0 {
        lemma_plain_type_params(s.drop_last(), c, x);
        if let TypeParam::TypeVar(n) = s.last() {
            lemma_plain_opt_expr(n.bound, c, x);
        }
    }
}

// ── Blocks that grow ────────────────────────────────────────────────────────

/// Whether `b` is `a` with `s` behind the last statement of one of its blocks.
pub open spec fn one_more(a: &Stmt, b: &Stmt, s: &Stmt) -> bool {
    match (a, b) {
        (Stmt::FunctionDef(m), Stmt::FunctionDef(n)) => n.body@ == m.body@.push(*s) && m.args
            == n.args && m.decorator_list@ == n.decorator_list@ && m.returns == n.returns
            && m.type_params@ == n.type_params@,
        (Stmt::AsyncFunctionDef(m), Stmt::AsyncFunctionDef(n)) => n.body@ == m.body@.push(*s)
            && m.args == n.args && m.decorator_list@ == n.decorator_list@ && m.returns == n.returns
            && m.type_params@ == n.type_params@,
        (Stmt::ClassDef(m), Stmt::ClassDef(n)) => n.body@ == m.body@.push(*s) && m.bases@
            == n.bases@ && m.keywords@ == n.keywords@ && m.decorator_list@ == n.decorator_list@
            && m.type_params@ == n.type_params@ && m.name == n.name,
        (Stmt::For(m), Stmt::For(n)) => m.target == n.target && m.iter == n.iter && ((n.body@
            == m.body@.push(*s) && n.orelse@ == m.orelse@) || (n.body@ == m.body@ && n.orelse@
            == m.orelse@.push(*s))),
        (Stmt::AsyncFor(m), Stmt::AsyncFor(n)) => m.target == n.target && m.iter == n.iter && ((
        n.body@ == m.body@.push(*s) && n.orelse@ == m.orelse@) || (n.body@ == m.body@ && n.orelse@
            == m.orelse@.push(*s))),
        (Stmt::While(m), Stmt::While(n)) => m.test == n.test && ((n.body@ == m.body@.push(*s)
            && n.orelse@ == m.orelse@) || (n.body@ == m.body@ && n.orelse@ == m.orelse@.push(*s))),
        (Stmt::If(m), Stmt::If(n)) => m.test == n.test && ((n.body@ == m.body@.push(*s)
            && n.orelse@ == m.orelse@) || (n.body@ == m.body@ && n.orelse@ == m.orelse@.push(*s))),
        (Stmt::With(m), Stmt::With(n)) => n.body@ == m.body@.push(*s) && m.items@ == n.items@,
        (Stmt::AsyncWith(m), Stmt::AsyncWith(n)) => n.body@ == m.body@.push(*s) && m.items@
            == n.items@,
        (Stmt::Try(m), Stmt::Try(n)) => m.handlers@ == n.handlers@ && ((n.body@ == m.body@.push(*s)
            && n.orelse@ == m.orelse@ && n.finalbody@ == m.finalbody@) || (n.body@ == m.body@
            && n.orelse@ == m.orelse@.push(*s) && n.finalbody@ == m.finalbody@) || (n.body@
            == m.body@ && n.orelse@ == m.orelse@ && n.finalbody@ == m.finalbody@.push(*s))),
        (Stmt::TryStar(m), Stmt::TryStar(n)) => m.handlers@ == n.handlers@ && ((n.body@
            == m.body@.push(*s) && n.orelse@ == m.orelse@ && n.finalbody@ == m.finalbody@) || (
        n.body@ == m.body@ && n.orelse@ == m.orelse@.push(*s) && n.finalbody@ == m.finalbody@) || (
        n.body@ == m.body@ && n.orelse@ == m.orelse@ && n.finalbody@ == m.finalbody@.push(*s))),
        _ => false,
    }
}

proof fn lemma_grown_block<'a>(s: Seq<Stmt>, last: &'a Stmt, c: Coverage, x: At<'a>)
    ensures
        walk_stmts(s.push(*last), c, x) == walk_stmts(s, c, x) + walk_stmt(last, c, x),
{
    assert(s.push(*last).drop_last() =~= s);
}

proof fn lemma_one_more_function_def<'a>(
    a: &'a Stmt,
    b: &'a Stmt,
    s: &'a Stmt,
    c: Coverage,
    x: At<'a>,
) -> (r: (Seq<Seen<'a>>, Seq<Seen<'a>>))
    requires
        a is FunctionDef,
        one_more(a, b, s),
    ensures
        stmt_parts(a, c, x) == r.0 + r.1,
        stmt_parts(b, c, x) == r.0 + walk_stmt(s, c, x) + r.1,
{
    match (a, b) {
        (Stmt::FunctionDef(m), Stmt::FunctionDef(n)) => {
            lemma_grown_block(m.body@, s, c, x);
            let before = walk_arguments(&m.args, c, x) + walk_stmts(m.body@, c, x);
            let behind = walk_exprs(m.decorator_list@, c, x) + walk_opt_expr(m.returns, c, x) + walk_type_params(m.type_params@, c, x);
            assert(stmt_parts(a, c, x) =~= before + behind);
            assert(stmt_parts(b, c, x) =~= before + walk_stmt(s, c, x) + behind);
            (before, behind)
        },
        _ => (seq![], seq![]),
    }
}

proof fn lemma_one_more_async_function_def<'a>(
    a: &'a Stmt,
    b: &'a Stmt,
    s: &'a Stmt,
    c: Coverage,
    x: At<'a>,
) -> (r: (Seq<Seen<'a>>, Seq<Seen<'a>>))
    requires
        a is AsyncFunctionDef,
        one_more(a, b, s),
    ensures
        stmt_parts(a, c, x) == r.0 + r.1,
        stmt_parts(b, c, x) == r.0 + walk_stmt(s, c, x) + r.1,
{
    match (a, b) {
        (Stmt::AsyncFunctionDef(m), Stmt::AsyncFunctionDef(n)) => {
            lemma_grown_block(m.body@, s, c, x);
            let before = walk_arguments(&m.args, c, x) + walk_stmts(m.body@, c, x);
            let behind = walk_exprs(m.decorator_list@, c, x) + walk_opt_expr(m.returns, c, x) + walk_type_params(m.type_params@, c, x);
            assert(stmt_parts(a, c, x) =~= before + behind);
            assert(stmt_parts(b, c, x) =~= before + walk_stmt(s, c, x) + behind);
            (before, behind)
        },
        _ => (seq![], seq![]),
    }
}

proof fn lemma_one_more_class_def<'a>(
    a: &'a Stmt,
    b: &'a Stmt,
    s: &'a Stmt,
    c: Coverage,
    x: At<'a>,
) -> (r: (Seq<Seen<'a>>, Seq<Seen<'a>>))
    requires
        a is ClassDef,
        one_more(a, b, s),
    ensures
        stmt_parts(a, c, x) == r.0 + r.1,
        stmt_parts(b, c, x) == r.0 + walk_stmt(s, c, x) + r.1,
{
    match (a, b) {
        (Stmt::ClassDef(m), Stmt::ClassDef(n)) => {
            lemma_grown_block(m.body@, s, c, x);
            let before = walk_exprs(m.bases@, c, x) + walk_keywords(m.keywords@, c, x) + walk_stmts(m.body@, c, x);
            let behind = walk_exprs(m.decorator_list@, c, x) + walk_type_params(m.type_params@, c, x);
            assert(stmt_parts(a, c, x) =~= before + behind);
            assert(stmt_parts(b, c, x) =~= before + walk_stmt(s, c, x) + behind);
            (before, behind)
        },
        _ => (seq![], seq![]),
    }
}

proof fn lemma_one_more_for<'a>(
    a: &'a Stmt,
    b: &'a Stmt,
    s: &'a Stmt,
    c: Coverage,
    x: At<'a>,
) -> (r: (Seq<Seen<'a>>, Seq<Seen<'a>>))
    requires
        a is For,
        one_more(a, b, s),
    ensures
        stmt_parts(a, c, x) == r.0 + r.1,
        stmt_parts(b, c, x) == r.0 + walk_stmt(s, c, x) + r.1,
{
    match (a, b) {
        (Stmt::For(m), Stmt::For(n)) => {
            if n.body@ == m.body@.push(*s) {
                lemma_grown_block(m.body@, s, c, x);
                let before = walk_expr(&m.target, c, x) + walk_expr(&m.iter, c, x) + walk_stmts(m.body@, c, x);
                let behind = walk_stmts(m.orelse@, c, x);
                assert(stmt_parts(a, c, x) =~= before + behind);
                assert(stmt_parts(b, c, x) =~= before + walk_stmt(s, c, x) + behind);
                (before, behind)
            } else {
                lemma_grown_block(m.orelse@, s, c, x);
                let before = walk_expr(&m.target, c, x) + walk_expr(&m.iter, c, x) + walk_stmts(m.body@, c, x) + walk_stmts(m.orelse@, c, x);
                let behind = Seq::<Seen<'a>>::empty();
                assert(stmt_parts(a, c, x) =~= before + behind);
                assert(stmt_parts(b, c, x) =~= before + walk_stmt(s, c, x) + behind);
                (before, behind)
            }
        },
        _ => (seq![], seq![]),
    }
}

proof fn lemma_one_more_async_for<'a>(
    a: &'a Stmt,
    b: &'a Stmt,
    s: &'a Stmt,
    c: Coverage,
    x: At<'a>,
) -> (r: (Seq<Seen<'a>>, Seq<Seen<'a>>))
    requires
        a is AsyncFor,
        one_more(a, b, s),
    ensures
        stmt_parts(a, c, x) == r.0 + r.1,
        stmt_parts(b, c, x) == r.0 + walk_stmt(s, c, x) + r.1,
{
    match (a, b) {
        (Stmt::AsyncFor(m), Stmt::AsyncFor(n)) => {
            if n.body@ == m.body@.push(*s) {
                lemma_grown_block(m.body@, s, c, x);
                let before = walk_expr(&m.target, c, x) + walk_expr(&m.iter, c, x) + walk_stmts(m.body@, c, x);
                let behind = walk_stmts(m.orelse@, c, x);
                assert(stmt_parts(a, c, x) =~= before + behind);
                assert(stmt_parts(b, c, x) =~= before + walk_stmt(s, c, x) + behind);
                (before, behind)
            } else {
                lemma_grown_block(m.orelse@, s, c, x);
                let before = walk_expr(&m.target, c, x) + walk_expr(&m.iter, c, x) + walk_stmts(m.body@, c, x) + walk_stmts(m.orelse@, c, x);
                let behind = Seq::<Seen<'a>>::empty();
                assert(stmt_parts(a, c, x) =~= before + behind);
                assert(stmt_parts(b, c, x) =~= before + walk_stmt(s, c, x) + behind);
                (before, behind)
            }
        },
        _ => (seq![], seq![]),
    }
}

proof fn lemma_one_more_while<'a>(
    a: &'a Stmt,
    b: &'a Stmt,
    s: &'a Stmt,
    c: Coverage,
    x: At<'a>,
) -> (r: (Seq<Seen<'a>>, Seq<Seen<'a>>))
    requires
        a is While,
        one_more(a, b, s),
    ensures
        stmt_parts(a, c, x) == r.0 + r.1,
        stmt_parts(b, c, x) == r.0 + walk_stmt(s, c, x) + r.1,
{
    match (a, b) {
        (Stmt::While(m), Stmt::While(n)) => {
            if n.body@ == m.body@.push(*s) {
                lemma_grown_block(m.body@, s, c, x);
                let before = walk_expr(&m.test, c, x) + walk_stmts(m.body@, c, x);
                let behind = walk_stmts(m.orelse@, c, x);
                assert(stmt_parts(a, c, x) =~= before + behind);
                assert(stmt_parts(b, c, x) =~= before + walk_stmt(s, c, x) + behind);
                (before, behind)
            } else {
                lemma_grown_block(m.orelse@, s, c, x);
                let before = walk_expr(&m.test, c, x) + walk_stmts(m.body@, c, x) + walk_stmts(m.orelse@, c, x);
                let behind = Seq::<Seen<'a>>::empty();
                assert(stmt_parts(a, c, x) =~= before + behind);
                assert(stmt_parts(b, c, x) =~= before + walk_stmt(s, c, x) + behind);
                (before, behind)
            }
        },
        _ => (seq![], seq![]),
    }
}

proof fn lemma_one_more_if<'a>(
    a: &'a Stmt,
    b: &'a Stmt,
    s: &'a Stmt,
    c: Coverage,
    x: At<'a>,
) -> (r: (Seq<Seen<'a>>, Seq<Seen<'a>>))
    requires
        a is If,
        one_more(a, b, s),
    ensures
        stmt_parts(a, c, x) == r.0 + r.1,
        stmt_parts(b, c, x) == r.0 + walk_stmt(s, c, x) + r.1,
{
    match (a, b) {
        (Stmt::If(m), Stmt::If(n)) => {
            if n.body@ == m.body@.push(*s) {
                lemma_grown_block(m.body@, s, c, x);
                let before = walk_expr(&m.test, c, x) + walk_stmts(m.body@, c, x);
                let behind = walk_stmts(m.orelse@, c, x);
                assert(stmt_parts(a, c, x) =~= before + behind);
                assert(stmt_parts(b, c, x) =~= before + walk_stmt(s, c, x) + behind);
                (before, behind)
            } else {
                lemma_grown_block(m.orelse@, s, c, x);
                let before = walk_expr(&m.test, c, x) + walk_stmts(m.body@, c, x) + walk_stmts(m.orelse@, c, x);
                let behind = Seq::<Seen<'a>>::empty();
                assert(stmt_parts(a, c, x) =~= before + behind);
                assert(stmt_parts(b, c, x) =~= before + walk_stmt(s, c, x) + behind);
                (before, behind)
            }
        },
        _ => (seq![], seq![]),
    }
}

proof fn lemma_one_more_with<'a>(
    a: &'a Stmt,
    b: &'a Stmt,
    s: &'a Stmt,
    c: Coverage,
    x: At<'a>,
) -> (r: (Seq<Seen<'a>>, Seq<Seen<'a>>))
    requires
        a is With,
        one_more(a, b, s),
    ensures
        stmt_parts(a, c, x) == r.0 + r.1,
        stmt_parts(b, c, x) == r.0 + walk_stmt(s, c, x) + r.1,
{
    match (a, b) {
        (Stmt::With(m), Stmt::With(n)) => {
            lemma_grown_block(m.body@, s, c, x);
            let before = walk_with_items(m.items@, c, x) + walk_stmts(m.body@, c, x);
            let behind = Seq::<Seen<'a>>::empty();
            assert(stmt_parts(a, c, x) =~= before + behind);
            assert(stmt_parts(b, c, x) =~= before + walk_stmt(s, c, x) + behind);
            (before, behind)
        },
        _ => (seq![], seq![]),
    }
}

proof fn lemma_one_more_async_with<'a>(
    a: &'a Stmt,
    b: &'a Stmt,
    s: &'a Stmt,
    c: Coverage,
    x: At<'a>,
) -> (r: (Seq<Seen<'a>>, Seq<Seen<'a>>))
    requires
        a is AsyncWith,
        one_more(a, b, s),
    ensures
        stmt_parts(a, c, x) == r.0 + r.1,
        stmt_parts(b, c, x) == r.0 + walk_stmt(s, c, x) + r.1,
{
    match (a, b) {
        (Stmt::AsyncWith(m), Stmt::AsyncWith(n)) => {
            lemma_grown_block(m.body@, s, c, x);
            let before = walk_with_items(m.items@, c, x) + walk_stmts(m.body@, c, x);
            let behind = Seq::<Seen<'a>>::empty();
            assert(stmt_parts(a, c, x) =~= before + behind);
            assert(stmt_parts(b, c, x) =~= before + walk_stmt(s, c, x) + behind);
            (before, behind)
        },
        _ => (seq![], seq![]),
    }
}

proof fn lemma_one_more_try<'a>(
    a: &'a Stmt,
    b: &'a Stmt,
    s: &'a Stmt,
    c: Coverage,
    x: At<'a>,
) -> (r: (Seq<Seen<'a>>, Seq<Seen<'a>>))
    requires
        a is Try,
        one_more(a, b, s),
    ensures
        stmt_parts(a, c, x) == r.0 + r.1,
        stmt_parts(b, c, x) == r.0 + walk_stmt(s, c, x) + r.1,
{
    match (a, b) {
        (Stmt::Try(m), Stmt::Try(n)) => {
            if n.body@ == m.body@.push(*s) {
                lemma_grown_block(m.body@, s, c, x);
                let before = walk_stmts(m.body@, c, x);
                let behind = walk_handlers(m.handlers@, c, x) + walk_stmts(m.orelse@, c, x) + walk_stmts(m.finalbody@, c, x);
                assert(stmt_parts(a, c, x) =~= before + behind);
                assert(stmt_parts(b, c, x) =~= before + walk_stmt(s, c, x) + behind);
                (before, behind)
            } else if n.orelse@ == m.orelse@.push(*s) {
                lemma_grown_block(m.orelse@, s, c, x);
                let before = walk_stmts(m.body@, c, x) + walk_handlers(m.handlers@, c, x) + walk_stmts(m.orelse@, c, x);
                let behind = walk_stmts(m.finalbody@, c, x);
                assert(stmt_parts(a, c, x) =~= before + behind);
                assert(stmt_parts(b, c, x) =~= before + walk_stmt(s, c, x) + behind);
                (before, behind)
            } else {
                lemma_grown_block(m.finalbody@, s, c, x);
                let before = walk_stmts(m.body@, c, x) + walk_handlers(m.handlers@, c, x) + walk_stmts(m.orelse@, c, x) + walk_stmts(m.finalbody@, c, x);
                let behind = Seq::<Seen<'a>>::empty();
                assert(stmt_parts(a, c, x) =~= before + behind);
                assert(stmt_parts(b, c, x) =~= before + walk_stmt(s, c, x) + behind);
                (before, behind)
            }
        },
        _ => (seq![], seq![]),
    }
}

proof fn lemma_one_more_try_star<'a>(
    a: &'a Stmt,
    b: &'a Stmt,
    s: &'a Stmt,
    c: Coverage,
    x: At<'a>,
) -> (r: (Seq<Seen<'a>>, Seq<Seen<'a>>))
    requires
        a is TryStar,
        one_more(a, b, s),
    ensures
        stmt_parts(a, c, x) == r.0 + r.1,
        stmt_parts(b, c, x) == r.0 + walk_stmt(s, c, x) + r.1,
{
    match (a, b) {
        (Stmt::TryStar(m), Stmt::TryStar(n)) => {
            if n.body@ == m.body@.push(*s) {
                lemma_grown_block(m.body@, s, c, x);
                let before = walk_stmts(m.body@, c, x);
                let behind = walk_handlers(m.handlers@, c, x) + walk_stmts(m.orelse@, c, x) + walk_stmts(m.finalbody@, c, x);
                assert(stmt_parts(a, c, x) =~= before + behind);
                assert(stmt_parts(b, c, x) =~= before + walk_stmt(s, c, x) + behind);
                (before, behind)
            } else if n.orelse@ == m.orelse@.push(*s) {
                lemma_grown_block(m.orelse@, s, c, x);
                let before = walk_stmts(m.body@, c, x) + walk_handlers(m.handlers@, c, x) + walk_stmts(m.orelse@, c, x);
                let behind = walk_stmts(m.finalbody@, c, x);
                assert(stmt_parts(a, c, x) =~= before + behind);
                assert(stmt_parts(b, c, x) =~= before + walk_stmt(s, c, x) + behind);
                (before, behind)
            } else {
                lemma_grown_block(m.finalbody@, s, c, x);
                let before = walk_stmts(m.body@, c, x) + walk_handlers(m.handlers@, c, x) + walk_stmts(m.orelse@, c, x) + walk_stmts(m.finalbody@, c, x);
                let behind = Seq::<Seen<'a>>::empty();
                assert(stmt_parts(a, c, x) =~= before + behind);
                assert(stmt_parts(b, c, x) =~= before + walk_stmt(s, c, x) + behind);
                (before, behind)
            }
        },
        _ => (seq![], seq![]),
    }
}

/// What the parts of two such statements have in common, before and behind what `s` adds.
pub proof fn lemma_one_more<'a>(
    a: &'a Stmt,
    b: &'a Stmt,
    s: &'a Stmt,
    c: Coverage,
    x: At<'a>,
) -> (r: (Seq<Seen<'a>>, Seq<Seen<'a>>))
    requires
        one_more(a, b, s),
    ensures
        stmt_parts(a, c, x) == r.0 + r.1,
        stmt_parts(b, c, x) == r.0 + walk_stmt(s, c, x) + r.1,
{
    match a {
        Stmt::FunctionDef(_) => lemma_one_more_function_def(a, b, s, c, x),
        Stmt::AsyncFunctionDef(_) => lemma_one_more_async_function_def(a, b, s, c, x),
        Stmt::ClassDef(_) => lemma_one_more_class_def(a, b, s, c, x),
        Stmt::For(_) => lemma_one_more_for(a, b, s, c, x),
        Stmt::AsyncFor(_) => lemma_one_more_async_for(a, b, s, c, x),
        Stmt::While(_) => lemma_one_more_while(a, b, s, c, x),
        Stmt::If(_) => lemma_one_more_if(a, b, s, c, x),
        Stmt::With(_) => lemma_one_more_with(a, b, s, c, x),
        Stmt::AsyncWith(_) => lemma_one_more_async_with(a, b, s, c, x),
        Stmt::Try(_) => lemma_one_more_try(a, b, s, c, x),
        Stmt::TryStar(_) => lemma_one_more_try_star(a, b, s, c, x),
        _ => (seq![], seq![]),
    }
}

/// Wherever a list of statements stands, its walk is that from the outset, moved there.
pub proof fn lemma_stmts_from<'a>(s: Seq<Stmt>, c: Coverage, x: At<'a>)
    ensures
        walk_stmts(s, c, x) == walk_stmts(s, c, outset()).map_values(moving(x)),
{
    lemma_moved_stmts(s, c, outset(), x);
    assert(moved(outset(), x) == x);
}

/// Wherever a statement stands, its walk is that from the outset, moved there.
pub proof fn lemma_stmt_from<'a>(s: &'a Stmt, c: Coverage, x: At<'a>)
    ensures
        walk_stmt(s, c, x) == walk_stmt(s, c, outset()).map_values(moving(x)),
{
    lemma_moved_stmt(s, c, outset(), x);
    assert(moved(outset(), x) == x);
}

/// Wherever an expression stands, its walk is that from the outset, moved there.
pub proof fn lemma_expr_from<'a>(e: &'a Expr, c: Coverage, x: At<'a>)
    ensures
        walk_expr(e, c, x) == walk_expr(e, c, outset()).map_values(moving(x)),
{
    lemma_moved_expr(e, c, outset(), x);
    assert(moved(outset(), x) == x);
}

/// The walk of two lists, one behind the other.
pub proof fn lemma_stmts_both<'a>(a: Seq<Stmt>, b: Seq<Stmt>, c: Coverage, x: At<'a>)
    ensures
        walk_stmts(a + b, c, x) == walk_stmts(a, c, x) + walk_stmts(b, c, x),
    decreases b.len(),
{
    if b.len() == 0 {
        assert(a + b =~= a);
        assert(walk_stmts(a, c, x) + walk_stmts(b, c, x) =~= walk_stmts(a, c, x));
    } else {
        lemma_stmts_both(a, b.drop_last(), c, x);
        assert((a + b).drop_last() =~= a + b.drop_last());
        assert((a + b).last() == b.last());
        assert(walk_stmts(a, c, x) + walk_stmts(b.drop_last(), c, x) + walk_stmt(&b.last(), c, x)
            =~= walk_stmts(a, c, x) + (walk_stmts(b.drop_last(), c, x) + walk_stmt(
            &b.last(),
            c,
            x,
        )));
    }
}

} // verus!
