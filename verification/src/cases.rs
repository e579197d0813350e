//! What stands in the patterns of a `match` statement and in type parameters is looked at.

use crate::walk::{
    inside, outset, stmt_parts, walk_case, walk_cases, walk_expr, walk_exprs, walk_opt_pattern,
    walk_pattern, walk_patterns, walk_stmt, walk_stmts, walk_type_params, At, Coverage, Node,
};
use crate::within::{leads_inward, lemma_reaches_both, lemma_reaches_inward, reaches};
use rustpython_ast::{Expr, MatchCase, Pattern, Stmt, TypeParam};
use vstd::prelude::*;

verus! {

/// Whether a pattern is a part of another.
pub open spec fn is_part_of(inner: Pattern, outer: Pattern) -> bool {
    match outer {
        Pattern::MatchSequence(n) => n.patterns@.contains(inner),
        Pattern::MatchMapping(n) => n.patterns@.contains(inner),
        Pattern::MatchClass(n) => n.patterns@.contains(inner) || n.kwd_patterns@.contains(inner),
        Pattern::MatchAs(n) => n.pattern == Some(Box::new(inner)),
        Pattern::MatchOr(n) => n.patterns@.contains(inner),
        _ => false,
    }
}

/// Whether a pattern names an expression: a value, a key or a class.
pub open spec fn names_expression(p: Pattern, e: Expr) -> bool {
    match p {
        Pattern::MatchValue(n) => *n.value == e,
        Pattern::MatchMapping(n) => n.keys@.contains(e),
        Pattern::MatchClass(n) => *n.cls == e,
        _ => false,
    }
}

/// Whether a line of patterns leads inward, from a pattern to one that names an expression.
pub open spec fn leads_to(line: Seq<Pattern>, e: Expr) -> bool {
    &&& line.len() > 0
    &&& forall|k: int| 0 <= k < line.len() - 1 ==> is_part_of(#[trigger] line[k + 1], line[k])
    &&& names_expression(line.last(), e)
}

proof fn lemma_in_exprs<'a>(s: Seq<Expr>, e: &'a Expr, c: Coverage, x: At<'a>)
    requires
        s.contains(*e),
    ensures
        reaches(walk_exprs(s, c, x), Node::Expr(e)),
    decreases s.len(),
{
    broadcast use lemma_reaches_both;

    let k = s.index_of(*e);
    if k < s.len() - 1 {
        assert(s.drop_last()[k] == *e);
        lemma_in_exprs(s.drop_last(), e, c, x);
    } else {
        assert(walk_expr(&s.last(), c, x)[0].node == Node::Expr(e));
    }
}

proof fn lemma_in_patterns<'a>(
    s: Seq<Pattern>,
    p: Pattern,
    node: Node<'a>,
    c: Coverage,
    x: At<'a>,
)
    requires
        s.contains(p),
        reaches(walk_pattern(&p, c, x), node),
    ensures
        reaches(walk_patterns(s, c, x), node),
    decreases s.len(),
{
    broadcast use lemma_reaches_both;

    let k = s.index_of(p);
    if k < s.len() - 1 {
        assert(s.drop_last()[k] == p);
        lemma_in_patterns(s.drop_last(), p, node, c, x);
    }
}

proof fn lemma_pattern_reaches<'a>(
    line: Seq<Pattern>,
    top: int,
    e: &'a Expr,
    c: Coverage,
    x: At<'a>,
)
    requires
        leads_to(line, *e),
        0 <= top < line.len(),
    ensures
        reaches(walk_pattern(&line[top], c, x), Node::Expr(e)),
    decreases line.len() - top,
{
    broadcast use lemma_reaches_both;

    let node = Node::Expr(e);
    let p = line[top];
    if top < line.len() - 1 {
        lemma_pattern_reaches(line, top + 1, e, c, x);
        let q = line[top + 1];
        assert(is_part_of(q, p));
        match p {
            Pattern::MatchSequence(n) => {
                lemma_in_patterns(n.patterns@, q, node, c, x);
            },
            Pattern::MatchMapping(n) => {
                lemma_in_patterns(n.patterns@, q, node, c, x);
            },
            Pattern::MatchClass(n) => {
                if n.patterns@.contains(q) {
                    lemma_in_patterns(n.patterns@, q, node, c, x);
                } else {
                    lemma_in_patterns(n.kwd_patterns@, q, node, c, x);
                }
            },
            Pattern::MatchAs(n) => {
                assert(walk_opt_pattern(n.pattern, c, x) == walk_pattern(&q, c, x));
            },
            Pattern::MatchOr(n) => {
                lemma_in_patterns(n.patterns@, q, node, c, x);
            },
            _ => {},
        }
    } else {
        match p {
            Pattern::MatchValue(_) => {
                assert(walk_expr(e, c, x)[0].node == node);
                assert(walk_pattern(&p, c, x)[0].node == node);
            },
            Pattern::MatchMapping(n) => {
                lemma_in_exprs(n.keys@, e, c, x);
            },
            Pattern::MatchClass(_) => {
                assert(walk_expr(e, c, x)[0].node == node);
                assert(reaches(walk_expr(e, c, x), node));
            },
            _ => {},
        }
    }
}

proof fn lemma_in_cases<'a>(
    s: Seq<MatchCase>,
    k: int,
    node: Node<'a>,
    c: Coverage,
    x: At<'a>,
)
    requires
        0 <= k < s.len(),
        reaches(walk_case(&s[k], c, x), node),
    ensures
        reaches(walk_cases(s, c, x), node),
    decreases s.len(),
{
    broadcast use lemma_reaches_both;

    if k < s.len() - 1 {
        assert(s.drop_last()[k] == s[k]);
        lemma_in_cases(s.drop_last(), k, node, c, x);
    }
}

/// An expression that a pattern of a case names, however deep the pattern stands in it, is looked
/// at wherever the `match` stands in the body.
pub proof fn law_patterns_are_looked_at<'a>(
    body: Seq<Stmt>,
    way: Seq<Stmt>,
    s: &Stmt,
    k: int,
    line: Seq<Pattern>,
    e: &'a Expr,
    c: Coverage,
)
    requires
        c.functions,
        c.classes,
        c.type_checking,
        leads_inward(body, way),
        way.last() == *s,
        s matches Stmt::Match(n) && 0 <= k < n.cases@.len() && line.len() > 0 && n.cases@[k].pattern
            == line[0],
        leads_to(line, *e),
    ensures
        reaches(walk_stmts(body, c, outset()), Node::Expr(e)),
{
    broadcast use lemma_reaches_both;

    let node = Node::Expr(e);
    let x = inside(s, outset());
    if let Stmt::Match(n) = s {
        let y = crate::walk::below(x);
        lemma_pattern_reaches(line, 0, e, c, y);
        assert(reaches(walk_case(&n.cases@[k], c, x), node));
        lemma_in_cases(n.cases@, k, node, c, x);
        assert(reaches(stmt_parts(s, c, x), node));
        assert(reaches(walk_stmt(s, c, outset()), node));
    }
    lemma_reaches_inward(body, way, c, node);
}

/// The type parameters of a statement.
pub open spec fn type_parameters(s: Stmt) -> Seq<TypeParam> {
    match s {
        Stmt::FunctionDef(n) => n.type_params@,
        Stmt::AsyncFunctionDef(n) => n.type_params@,
        Stmt::ClassDef(n) => n.type_params@,
        Stmt::TypeAlias(n) => n.type_params@,
        _ => seq![],
    }
}

proof fn lemma_in_type_params<'a>(
    s: Seq<TypeParam>,
    k: int,
    e: &'a Expr,
    c: Coverage,
    x: At<'a>,
)
    requires
        0 <= k < s.len(),
        s[k] matches TypeParam::TypeVar(n) && n.bound == Some(Box::new(*e)),
    ensures
        reaches(walk_type_params(s, c, x), Node::Expr(e)),
    decreases s.len(),
{
    broadcast use lemma_reaches_both;

    if k < s.len() - 1 {
        assert(s.drop_last()[k] == s[k]);
        lemma_in_type_params(s.drop_last(), k, e, c, x);
    } else {
        assert(walk_expr(e, c, x)[0].node == Node::Expr(e));
        assert(reaches(walk_expr(e, c, x), Node::Expr(e)));
    }
}

/// The bound of a type parameter, and what a type alias stands for, are looked at wherever the
/// statement stands in the body.
pub proof fn law_type_parameters_are_looked_at<'a>(
    body: Seq<Stmt>,
    way: Seq<Stmt>,
    s: &Stmt,
    k: int,
    e: &'a Expr,
    c: Coverage,
)
    requires
        c.functions,
        c.classes,
        c.type_checking,
        leads_inward(body, way),
        way.last() == *s,
        (0 <= k < type_parameters(*s).len() && (type_parameters(*s)[k] matches TypeParam::TypeVar(n)
            && n.bound == Some(Box::new(*e)))) || (s matches Stmt::TypeAlias(n) && (*n.name == *e
            || *n.value == *e)),
    ensures
        reaches(walk_stmts(body, c, outset()), Node::Expr(e)),
{
    broadcast use lemma_reaches_both;

    let node = Node::Expr(e);
    let x = inside(s, outset());
    assert(walk_expr(e, c, x)[0].node == node);
    assert(reaches(walk_expr(e, c, x), node));
    let all = type_parameters(*s);
    if 0 <= k < all.len() && (all[k] matches TypeParam::TypeVar(n) && n.bound == Some(
        Box::new(*e),
    )) {
        lemma_in_type_params(all, k, e, c, x);
    }
    assert(reaches(stmt_parts(s, c, x), node));
    assert(reaches(walk_stmt(s, c, outset()), node));
    lemma_reaches_inward(body, way, c, node);
}

} // verus!
