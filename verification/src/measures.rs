//! How the measures of a function follow from its parts.
//!
//! A statement stands for its part of a function: `complexity` of a statement is one more
//! than what the statement adds to the complexity of the function around it, and that of an
//! expression is read off the statement that consists of it.

use crate::ast_helpers::{
    branch_weight, complexity, complexity_of, count_returns, def_body, deepest, is_def,
    law_complexity_is_a_sum, law_deepest_is_the_maximum, nesting, own_returns, own_statements,
    total_weight,
};
use crate::reach::{
    lemma_expr_from, lemma_one_more, lemma_plain_arguments, lemma_plain_expr, lemma_plain_exprs,
    lemma_plain_opt_expr, lemma_plain_type_params, lemma_plain_with_items, lemma_stmt_from,
    lemma_stmts_both, lemma_stmts_from, moving, one_more, plain,
};
use crate::walk::{
    at_stmt, below, expr_parts, expressions, inside, outset, statements, stmt_parts, walk_arguments,
    walk_expr, walk_exprs, walk_handler, walk_handlers, walk_opt_expr, walk_stmt, walk_stmts,
    walk_type_params, walk_with_items, within, At, Node, Seen,
};
use rustpython_ast::text_size::TextRange;
use rustpython_ast::{ExceptHandler, Expr, Stmt, StmtExpr};
use vstd::prelude::*;

verus! {

// ── Complexity ──────────────────────────────────────────────────────────────

/// The statement that consists of an expression.
pub open spec fn alone(e: Expr, range: TextRange) -> Stmt {
    Stmt::Expr(StmtExpr { range, value: Box::new(e) })
}

/// Whether visits are so few, and boolean chains so short, that no sum over them leaves the
/// range of a machine word.
pub open spec fn few(v: Seq<Seen>) -> bool {
    &&& v.len() <= 0x3fff_ffff
    &&& forall|i: int|
        0 <= i < v.len() ==> ((#[trigger] v[i]).node matches Node::Expr(Expr::BoolOp(n))
            ==> n.values@.len() <= 0x3fff_ffff)
}

/// Whether a statement is of such a size.
pub open spec fn is_sizeable(s: &Stmt) -> bool {
    few(walk_stmt(s, expressions(), outset()))
}

proof fn lemma_weight_bounds(v: Seq<Seen>)
    requires
        few(v),
    ensures
        -(v.len() as int) <= total_weight(v) <= 0x3fff_ffff * v.len(),
    decreases v.len(),
{
    if v.len() > 0 {
        let rest = v.drop_last();
        assert forall|i: int| 0 <= i < rest.len() implies ((#[trigger] rest[i]).node matches Node::Expr(
            Expr::BoolOp(n),
        ) ==> n.values@.len() <= 0x3fff_ffff) by {
            assert(rest[i] == v[i]);
        }
        lemma_weight_bounds(rest);
        assert(v[v.len() - 1] == v.last());
        assert(-1 <= branch_weight(v.last()) <= 0x3fff_ffff);
        assert(0x3fff_ffff * v.len() == 0x3fff_ffff * rest.len() + 0x3fff_ffff)
            by (nonlinear_arith)
            requires
                v.len() == rest.len() + 1,
        ;
    }
}

proof fn lemma_few_sum(v: Seq<Seen>)
    requires
        few(v),
    ensures
        complexity_of(v) == 1 + total_weight(v),
{
    assert forall|k: int| 0 <= k <= v.len() implies i64::MIN <= 1 + #[trigger] total_weight(
        v.take(k),
    ) <= i64::MAX by {
        let t = v.take(k);
        assert forall|i: int| 0 <= i < t.len() implies ((#[trigger] t[i]).node matches Node::Expr(
            Expr::BoolOp(n),
        ) ==> n.values@.len() <= 0x3fff_ffff) by {
            assert(t[i] == v[i]);
        }
        lemma_weight_bounds(t);
        assert(0x3fff_ffff * t.len() <= 0x3fff_ffff * 0x3fff_ffff) by (nonlinear_arith)
            requires
                t.len() <= 0x3fff_ffff,
        ;
    }
    law_complexity_is_a_sum(v);
}

broadcast proof fn lemma_weight_both(a: Seq<Seen>, b: Seq<Seen>)
    ensures
        #[trigger] total_weight(a + b) == total_weight(a) + total_weight(b),
    decreases b.len(),
{
    if b.len() == 0 {
        assert(a + b =~= a);
    } else {
        lemma_weight_both(a, b.drop_last());
        assert((a + b).drop_last() =~= a + b.drop_last());
        assert((a + b).last() == b.last());
    }
}

broadcast proof fn lemma_few_both(a: Seq<Seen>, b: Seq<Seen>)
    requires
        #[trigger] few(a + b),
    ensures
        few(a),
        few(b),
{
    assert forall|i: int| 0 <= i < a.len() implies ((#[trigger] a[i]).node matches Node::Expr(
        Expr::BoolOp(n),
    ) ==> n.values@.len() <= 0x3fff_ffff) by {
        assert((a + b)[i] == a[i]);
    }
    assert forall|i: int| 0 <= i < b.len() implies ((#[trigger] b[i]).node matches Node::Expr(
        Expr::BoolOp(n),
    ) ==> n.values@.len() <= 0x3fff_ffff) by {
        assert((a + b)[a.len() + i] == b[i]);
    }
}

proof fn lemma_weight_moved<'a>(v: Seq<Seen<'a>>, x: At<'a>)
    ensures
        total_weight(v.map_values(moving(x))) == total_weight(v),
        few(v.map_values(moving(x))) == few(v),
    decreases v.len(),
{
    let m = v.map_values(moving(x));
    if v.len() > 0 {
        lemma_weight_moved(v.drop_last(), x);
        assert(m.drop_last() =~= v.drop_last().map_values(moving(x)));
    }
    assert forall|i: int| 0 <= i < v.len() implies (#[trigger] v[i]).node == m[i].node by {}
    assert forall|i: int| 0 <= i < v.len() implies (#[trigger] m[i]).node == v[i].node by {}
    if few(m) {
        assert forall|i: int| 0 <= i < v.len() implies ((#[trigger] v[i]).node matches Node::Expr(
            Expr::BoolOp(n),
        ) ==> n.values@.len() <= 0x3fff_ffff) by {
            assert(m[i].node == v[i].node);
        }
    }
}

proof fn lemma_one_weight(v: Seen)
    ensures
        total_weight(seq![v]) == branch_weight(v),
{
    assert(seq![v].drop_last() =~= Seq::<Seen>::empty());
    assert(total_weight(Seq::<Seen>::empty()) == 0);
}

proof fn lemma_stmt_weight<'a>(s: &'a Stmt, x: At<'a>)
    ensures
        few(walk_stmt(s, expressions(), x)) == is_sizeable(s),
        is_sizeable(s) ==> total_weight(walk_stmt(s, expressions(), x)) == complexity(s) - 1,
{
    let v = walk_stmt(s, expressions(), outset());
    lemma_stmt_from(s, expressions(), x);
    lemma_weight_moved(v, x);
    if few(v) {
        lemma_few_sum(v);
    }
}

proof fn lemma_expr_weight<'a>(e: &'a Expr, x: At<'a>, range: TextRange)
    requires
        few(walk_expr(e, expressions(), x)),
        walk_expr(e, expressions(), x).len() < 0x3fff_ffff,
    ensures
        total_weight(walk_expr(e, expressions(), x)) == complexity(&alone(*e, range)) - 1,
        is_sizeable(&alone(*e, range)),
{
    broadcast use lemma_weight_both;

    let s = alone(*e, range);
    let y = inside(&s, outset());
    lemma_expr_from(e, expressions(), x);
    lemma_expr_from(e, expressions(), y);
    let v = walk_expr(e, expressions(), outset());
    lemma_weight_moved(v, x);
    lemma_weight_moved(v, y);
    let root = Seen { node: Node::Stmt(&s), depth: 0, nesting: 0, class: None };
    lemma_one_weight(root);
    let all = walk_stmt(&s, expressions(), outset());
    assert(all =~= seq![root] + walk_expr(e, expressions(), y));
    let w = walk_expr(e, expressions(), y);
    assert forall|i: int| 0 <= i < all.len() implies ((#[trigger] all[i]).node matches Node::Expr(
        Expr::BoolOp(n),
    ) ==> n.values@.len() <= 0x3fff_ffff) by {
        if i > 0 {
            assert(all[i] == w[i - 1]);
        }
    }
    lemma_few_sum(all);
}

/// A statement behind the others of a block adds to the complexity of the function what it
/// adds by itself, whatever block it is put into.
#[verifier::rlimit(40)]
pub proof fn law_statements_add_complexity(a: &Stmt, b: &Stmt, s: &Stmt)
    requires
        one_more(a, b, s),
        is_sizeable(b),
    ensures
        complexity(b) == complexity(a) + complexity(s) - 1,
{
    broadcast use lemma_weight_both, lemma_few_both;

    let c = expressions();
    let y = inside(a, outset());
    let (before, behind) = lemma_one_more(a, b, s, c, y);
    let ra = Seen { node: Node::Stmt(a), depth: 0, nesting: at_stmt(a, outset()).nesting, class: None };
    let rb = Seen { node: Node::Stmt(b), ..ra };
    lemma_one_weight(ra);
    lemma_one_weight(rb);
    let va = walk_stmt(a, c, outset());
    let vb = walk_stmt(b, c, outset());
    let vs = walk_stmt(s, c, y);
    assert(vb =~= seq![rb] + (before + vs + behind)) by {
        lemma_same_place(a, b, s);
    }
    assert(va =~= seq![ra] + (before + behind));
    lemma_few_both(seq![rb], before + vs + behind);
    lemma_few_both(before + vs, behind);
    lemma_few_both(before, vs);
    assert forall|i: int| 0 <= i < va.len() implies ((#[trigger] va[i]).node matches Node::Expr(
        Expr::BoolOp(n),
    ) ==> n.values@.len() <= 0x3fff_ffff) by {
        if 0 < i <= before.len() {
            assert(va[i] == before[i - 1]);
        } else if i > before.len() {
            assert(va[i] == behind[i - 1 - before.len()]);
        }
    }
    assert(va.len() <= vb.len());
    lemma_few_sum(va);
    lemma_few_sum(vb);
    lemma_stmt_weight(s, y);
    assert(branch_weight(ra) == branch_weight(rb));
}

proof fn lemma_same_place(a: &Stmt, b: &Stmt, s: &Stmt)
    requires
        one_more(a, b, s),
    ensures
        forall|x: At| inside(a, x) == #[trigger] inside(b, x),
        forall|x: At| at_stmt(a, x) == #[trigger] at_stmt(b, x),
{
}

proof fn lemma_root<'a>(s: &'a Stmt)
    requires
        is_sizeable(s),
    ensures
        complexity(s) == 1 + branch_weight(
            Seen { node: Node::Stmt(s), depth: 0, nesting: 0, class: None },
        ) + total_weight(stmt_parts(s, expressions(), inside(s, outset()))),
        few(stmt_parts(s, expressions(), inside(s, outset()))),
        stmt_parts(s, expressions(), inside(s, outset())).len() < 0x3fff_ffff,
{
    broadcast use lemma_weight_both;

    let root = Seen {
        node: Node::Stmt(s),
        depth: 0,
        nesting: at_stmt(s, outset()).nesting,
        class: None,
    };
    let parts = stmt_parts(s, expressions(), inside(s, outset()));
    lemma_one_weight(root);
    assert(walk_stmt(s, expressions(), outset()) =~= seq![root] + parts);
    lemma_few_both(seq![root], parts);
    lemma_few_sum(walk_stmt(s, expressions(), outset()));
}

/// What a statement adds whose blocks are empty: each condition that is tested and each loop
/// adds one path; a block, a `try`, a `with` and a plain statement add none.
pub proof fn law_conditions_add_one(s: &Stmt, range: TextRange)
    requires
        is_sizeable(s),
    ensures
        match s {
            Stmt::If(n) => n.body@.len() == 0 && n.orelse@.len() == 0 ==> complexity(s) == 1
                + complexity(&alone(*n.test, range)),
            Stmt::While(n) => n.body@.len() == 0 && n.orelse@.len() == 0 ==> complexity(s) == 1
                + complexity(&alone(*n.test, range)),
            Stmt::For(n) => n.body@.len() == 0 && n.orelse@.len() == 0 ==> complexity(s)
                == complexity(&alone(*n.target, range)) + complexity(&alone(*n.iter, range)),
            Stmt::AsyncFor(n) => n.body@.len() == 0 && n.orelse@.len() == 0 ==> complexity(s)
                == complexity(&alone(*n.target, range)) + complexity(&alone(*n.iter, range)),
            Stmt::Assert(n) => n.msg is None ==> complexity(s) == 1 + complexity(
                &alone(*n.test, range),
            ),
            Stmt::With(n) => n.body@.len() == 0 && n.items@.len() == 0 ==> complexity(s) == 1,
            Stmt::AsyncWith(n) => n.body@.len() == 0 && n.items@.len() == 0 ==> complexity(s) == 1,
            Stmt::Try(n) => n.body@.len() == 0 && n.handlers@.len() == 0 && n.orelse@.len() == 0
                && n.finalbody@.len() == 0 ==> complexity(s) == 1,
            Stmt::TryStar(n) => n.body@.len() == 0 && n.handlers@.len() == 0 && n.orelse@.len()
                == 0 && n.finalbody@.len() == 0 ==> complexity(s) == 1,
            Stmt::Match(n) => n.cases@.len() == 0 ==> complexity(s) == complexity(
                &alone(*n.subject, range),
            ),
            Stmt::Return(n) => match n.value {
                Some(e) => complexity(s) == complexity(&alone(*e, range)),
                None => complexity(s) == 1,
            },
            Stmt::Assign(n) => n.targets@.len() == 0 ==> complexity(s) == complexity(
                &alone(*n.value, range),
            ),
            Stmt::AugAssign(n) => complexity(s) == complexity(&alone(*n.target, range))
                + complexity(&alone(*n.value, range)) - 1,
            Stmt::Pass(_) | Stmt::Break(_) | Stmt::Continue(_) | Stmt::Import(_)
            | Stmt::ImportFrom(_) | Stmt::Global(_) | Stmt::Nonlocal(_) => complexity(s) == 1,
            _ => true,
        },
{
    broadcast use lemma_weight_both;

    let c = expressions();
    let y = inside(s, outset());
    lemma_root(s);
    let parts = stmt_parts(s, c, y);
    assert(total_weight(Seq::<Seen>::empty()) == 0);
    match s {
        Stmt::If(n) => {
            if n.body@.len() == 0 && n.orelse@.len() == 0 {
                assert(parts =~= walk_expr(&n.test, c, y));
                lemma_expr_weight(&n.test, y, range);
            }
        },
        Stmt::While(n) => {
            if n.body@.len() == 0 && n.orelse@.len() == 0 {
                assert(parts =~= walk_expr(&n.test, c, y));
                lemma_expr_weight(&n.test, y, range);
            }
        },
        Stmt::For(n) => {
            if n.body@.len() == 0 && n.orelse@.len() == 0 {
                assert(parts =~= walk_expr(&n.target, c, y) + walk_expr(&n.iter, c, y));
                lemma_few_both(walk_expr(&n.target, c, y), walk_expr(&n.iter, c, y));
                lemma_expr_weight(&n.target, y, range);
                lemma_expr_weight(&n.iter, y, range);
            }
        },
        Stmt::AsyncFor(n) => {
            if n.body@.len() == 0 && n.orelse@.len() == 0 {
                assert(parts =~= walk_expr(&n.target, c, y) + walk_expr(&n.iter, c, y));
                lemma_few_both(walk_expr(&n.target, c, y), walk_expr(&n.iter, c, y));
                lemma_expr_weight(&n.target, y, range);
                lemma_expr_weight(&n.iter, y, range);
            }
        },
        Stmt::Assert(n) => {
            if n.msg is None {
                assert(parts =~= walk_expr(&n.test, c, y));
                lemma_expr_weight(&n.test, y, range);
            }
        },
        Stmt::With(n) => {
            if n.body@.len() == 0 && n.items@.len() == 0 {
                assert(parts =~= seq![]);
            }
        },
        Stmt::AsyncWith(n) => {
            if n.body@.len() == 0 && n.items@.len() == 0 {
                assert(parts =~= seq![]);
            }
        },
        Stmt::Try(n) => {
            if n.body@.len() == 0 && n.handlers@.len() == 0 && n.orelse@.len() == 0
                && n.finalbody@.len() == 0 {
                assert(parts =~= seq![]);
            }
        },
        Stmt::TryStar(n) => {
            if n.body@.len() == 0 && n.handlers@.len() == 0 && n.orelse@.len() == 0
                && n.finalbody@.len() == 0 {
                assert(parts =~= seq![]);
            }
        },
        Stmt::Match(n) => {
            if n.cases@.len() == 0 {
                assert(parts =~= walk_expr(&n.subject, c, y));
                lemma_expr_weight(&n.subject, y, range);
            }
        },
        Stmt::Return(n) => {
            if let Some(e) = n.value {
                lemma_expr_weight(&*e, y, range);
            }
        },
        Stmt::Assign(n) => {
            if n.targets@.len() == 0 {
                assert(parts =~= walk_expr(&n.value, c, y));
                lemma_expr_weight(&n.value, y, range);
            }
        },
        Stmt::AugAssign(n) => {
            lemma_few_both(walk_expr(&n.target, c, y), walk_expr(&n.value, c, y));
            lemma_expr_weight(&n.target, y, range);
            lemma_expr_weight(&n.value, y, range);
        },
        _ => {},
    }
}

/// Whether `b` is `a` with one more handler, and `t` a statement that consists of the
/// handler's block.
pub open spec fn one_more_handler(a: &Stmt, b: &Stmt, h: ExceptHandler, t: &Stmt) -> bool {
    &&& match (a, b) {
        (Stmt::Try(m), Stmt::Try(n)) => n.body@ == m.body@ && n.orelse@ == m.orelse@
            && n.finalbody@ == m.finalbody@ && n.handlers@ == m.handlers@.push(h),
        (Stmt::TryStar(m), Stmt::TryStar(n)) => n.body@ == m.body@ && n.orelse@ == m.orelse@
            && n.finalbody@ == m.finalbody@ && n.handlers@ == m.handlers@.push(h),
        _ => false,
    }
    &&& t matches Stmt::TryStar(k) && k.handlers@.len() == 0 && k.orelse@.len() == 0
        && k.finalbody@.len() == 0 && match h {
        ExceptHandler::ExceptHandler(n) => n.body@ == k.body@,
    }
}

/// Each exception handler adds one path to those of its block and of the expression that
/// names what it catches.
pub proof fn law_handlers_add_one(
    a: &Stmt,
    b: &Stmt,
    h: ExceptHandler,
    t: &Stmt,
    range: TextRange,
)
    requires
        one_more_handler(a, b, h, t),
        is_sizeable(b),
    ensures
        match h {
            ExceptHandler::ExceptHandler(n) => match n.type_ {
                Some(e) => complexity(b) == complexity(a) + 1 + (complexity(t) - 1) + (complexity(
                    &alone(*e, range),
                ) - 1),
                None => complexity(b) == complexity(a) + 1 + (complexity(t) - 1),
            },
        },
{
    broadcast use lemma_weight_both;

    let c = expressions();
    let y = inside(b, outset());
    lemma_root(b);
    match h {
        ExceptHandler::ExceptHandler(k) => {
            let (body, handlers, before, orelse, finalbody) = match (a, b) {
                (Stmt::Try(m), Stmt::Try(n)) => (
                    m.body@,
                    n.handlers@,
                    m.handlers@,
                    m.orelse@,
                    m.finalbody@,
                ),
                (Stmt::TryStar(m), Stmt::TryStar(n)) => (
                    m.body@,
                    n.handlers@,
                    m.handlers@,
                    m.orelse@,
                    m.finalbody@,
                ),
                _ => (seq![], seq![], seq![], seq![], seq![]),
            };
            let w = walk_stmts(body, c, y);
            let o = walk_stmts(orelse, c, y);
            let f = walk_stmts(finalbody, c, y);
            let hs = walk_handlers(before, c, y);
            let one = walk_handler(&h, c, y);
            assert(handlers.drop_last() =~= before);
            assert(handlers.last() == h);
            assert(walk_handlers(handlers, c, y) == hs + one);
            assert(stmt_parts(b, c, y) == w + (hs + one) + o + f);
            assert(stmt_parts(a, c, y) == w + hs + o + f);
            lemma_few_both(w + (hs + one) + o, f);
            lemma_few_both(w + (hs + one), o);
            lemma_few_both(w, hs + one);
            lemma_few_both(hs, one);
            let va = walk_stmt(a, c, outset());
            lemma_drop_few(a, w, hs, o, f, y);
            lemma_root(a);
            let root = Seen {
                node: Node::Handler(&k),
                depth: within(y).depth,
                nesting: within(y).nesting,
                class: within(y).class,
            };
            lemma_one_weight(root);
            let te = walk_opt_expr(k.type_, c, within(y));
            let tb = walk_stmts(k.body@, c, within(y));
            assert(one == seq![root] + te + tb);
            lemma_few_both(seq![root] + te, tb);
            lemma_few_both(seq![root], te);
            lemma_block_weight(k.body@, t, within(y));
            assert(total_weight(Seq::<Seen>::empty()) == 0);
            if let Some(e) = k.type_ {
                lemma_expr_weight(&*e, within(y), range);
            }
        },
    }
}

proof fn lemma_drop_few<'a>(
    a: &'a Stmt,
    w: Seq<Seen<'a>>,
    hs: Seq<Seen<'a>>,
    o: Seq<Seen<'a>>,
    f: Seq<Seen<'a>>,
    y: At<'a>,
)
    requires
        few(w),
        few(hs),
        few(o),
        few(f),
        w.len() + hs.len() + o.len() + f.len() < 0x3fff_ffff,
        y == inside(a, outset()),
        a is Try || a is TryStar,
        stmt_parts(a, expressions(), y) == w + hs + o + f,
    ensures
        is_sizeable(a),
{
    let va = walk_stmt(a, expressions(), outset());
    assert forall|i: int| 0 <= i < va.len() implies ((#[trigger] va[i]).node matches Node::Expr(
        Expr::BoolOp(n),
    ) ==> n.values@.len() <= 0x3fff_ffff) by {
        if i > 0 {
            let p = w + hs + o + f;
            assert(va[i] == p[i - 1]);
            let k = i - 1;
            if k < w.len() {
                assert(p[k] == w[k]);
            } else if k < w.len() + hs.len() {
                assert(p[k] == hs[k - w.len()]);
            } else if k < w.len() + hs.len() + o.len() {
                assert(p[k] == o[k - w.len() - hs.len()]);
            } else {
                assert(p[k] == f[k - w.len() - hs.len() - o.len()]);
            }
        }
    }
}

proof fn lemma_block_weight<'a>(body: Seq<Stmt>, t: &Stmt, x: At<'a>)
    requires
        t matches Stmt::TryStar(k) && k.handlers@.len() == 0 && k.orelse@.len() == 0
            && k.finalbody@.len() == 0 && k.body@ == body,
        few(walk_stmts(body, expressions(), x)),
        walk_stmts(body, expressions(), x).len() < 0x3fff_ffff,
    ensures
        total_weight(walk_stmts(body, expressions(), x)) == complexity(t) - 1,
{
    let c = expressions();
    let y = inside(t, outset());
    lemma_stmts_from(body, c, x);
    lemma_stmts_from(body, c, y);
    let v = walk_stmts(body, c, outset());
    lemma_weight_moved(v, x);
    lemma_weight_moved(v, y);
    let none = Seq::<Seen>::empty();
    assert(stmt_parts(t, c, y) =~= walk_stmts(body, c, y) + none + none + none);
    lemma_drop_few(t, walk_stmts(body, c, y), none, none, none, y);
    lemma_root(t);
    assert(stmt_parts(t, c, y) =~= walk_stmts(body, c, y));
}

/// Whether `b` is `a` with `e` behind the last of its operands.
pub open spec fn one_more_operand(a: &Expr, b: &Expr, e: Expr) -> bool {
    match (a, b) {
        (Expr::BoolOp(m), Expr::BoolOp(n)) => n.values@ == m.values@.push(e),
        (Expr::List(m), Expr::List(n)) => n.elts@ == m.elts@.push(e),
        (Expr::Tuple(m), Expr::Tuple(n)) => n.elts@ == m.elts@.push(e),
        (Expr::Set(m), Expr::Set(n)) => n.elts@ == m.elts@.push(e),
        (Expr::JoinedStr(m), Expr::JoinedStr(n)) => n.values@ == m.values@.push(e),
        (Expr::Compare(m), Expr::Compare(n)) => m.left == n.left && n.comparators@
            == m.comparators@.push(e),
        (Expr::Call(m), Expr::Call(n)) => m.func == n.func && m.keywords@ == n.keywords@ && n.args@
            == m.args@.push(e),
        _ => false,
    }
}

proof fn lemma_parts_of(e: &Expr, range: TextRange)
    requires
        is_sizeable(&alone(*e, range)),
    ensures
        complexity(&alone(*e, range)) == 1 + branch_weight(
            Seen { node: Node::Expr(e), depth: 0, nesting: 0, class: None },
        ) + total_weight(expr_parts(e, expressions(), operand_place())),
        few(expr_parts(e, expressions(), operand_place())),
        expr_parts(e, expressions(), operand_place()).len() < 0x3fff_fffe,
{
    broadcast use lemma_weight_both;

    let s = alone(*e, range);
    let y = inside(&s, outset());
    lemma_root(&s);
    assert(operand_place() == below(y));
    let root = Seen { node: Node::Expr(e), depth: y.depth, nesting: 0, class: None };
    lemma_one_weight(root);
    let parts = expr_parts(e, expressions(), below(y));
    assert(stmt_parts(&s, expressions(), y) =~= seq![root] + parts);
    lemma_few_both(seq![root], parts);
}

/// Where the operands of an expression stand that is a statement by itself.
spec fn operand_place<'a>() -> At<'a> {
    At { depth: 2, nesting: 0, class: None }
}

/// Each operand behind the first of a chain of `and` or `or` adds one path to its own; an
/// element or argument adds no more than its own.
#[verifier::rlimit(40)]
pub proof fn law_operands_add_complexity(a: &Expr, b: &Expr, e: Expr, range: TextRange)
    requires
        one_more_operand(a, b, e),
        is_sizeable(&alone(*a, range)),
        is_sizeable(&alone(*b, range)),
    ensures
        a is BoolOp ==> complexity(&alone(*b, range)) == complexity(&alone(*a, range)) + complexity(
            &alone(e, range),
        ),
        !(a is BoolOp) ==> complexity(&alone(*b, range)) == complexity(&alone(*a, range))
            + complexity(&alone(e, range)) - 1,
        a is BoolOp && (e is Name || e is Constant) ==> complexity(&alone(*b, range)) == complexity(
            &alone(*a, range),
        ) + 1,
{
    broadcast use lemma_weight_both;

    let c = expressions();
    let y = operand_place();
    lemma_parts_of(a, range);
    lemma_parts_of(b, range);
    let pa = expr_parts(a, c, y);
    let pb = expr_parts(b, c, y);
    let we = walk_expr(&e, c, y);
    let (old_list, new_list) = match (a, b) {
        (Expr::BoolOp(m), Expr::BoolOp(n)) => (m.values@, n.values@),
        (Expr::List(m), Expr::List(n)) => (m.elts@, n.elts@),
        (Expr::Tuple(m), Expr::Tuple(n)) => (m.elts@, n.elts@),
        (Expr::Set(m), Expr::Set(n)) => (m.elts@, n.elts@),
        (Expr::JoinedStr(m), Expr::JoinedStr(n)) => (m.values@, n.values@),
        (Expr::Compare(m), Expr::Compare(n)) => (m.comparators@, n.comparators@),
        (Expr::Call(m), Expr::Call(n)) => (m.args@, n.args@),
        _ => (seq![], seq![]),
    };
    assert(new_list.drop_last() =~= old_list);
    let wl = walk_exprs(old_list, c, y);
    assert(walk_exprs(new_list, c, y) == wl + we);
    match (a, b) {
        (Expr::Compare(m), Expr::Compare(_)) => {
            lemma_few_both(walk_expr(&m.left, c, y), wl + we);
        },
        (Expr::Call(m), Expr::Call(_)) => {
            let ks = crate::walk::walk_keywords(m.keywords@, c, y);
            lemma_few_both(walk_expr(&m.func, c, y) + (wl + we), ks);
            lemma_few_both(walk_expr(&m.func, c, y), wl + we);
        },
        _ => {
            assert(pb == wl + we);
        },
    }
    lemma_few_both(wl, we);
    lemma_expr_weight(&e, y, range);
    if e is Name || e is Constant {
        lemma_parts_of(&e, range);
        assert(expr_parts(&e, c, y) =~= seq![]);
        assert(total_weight(Seq::<Seen>::empty()) == 0);
    }
}

/// What expressions add by themselves: names and literals add nothing, a comprehension adds
/// one path, and an operator no more than its operands.
#[verifier::rlimit(40)]
pub proof fn law_expressions_add_complexity(e: &Expr, range: TextRange)
    requires
        is_sizeable(&alone(*e, range)),
    ensures
        match e {
            Expr::Name(_) | Expr::Constant(_) => complexity(&alone(*e, range)) == 1,
            Expr::BoolOp(n) => n.values@.len() == 1 ==> complexity(&alone(*e, range))
                == complexity(&alone(n.values@[0], range)),
            Expr::UnaryOp(n) => complexity(&alone(*e, range)) == complexity(
                &alone(*n.operand, range),
            ),
            Expr::Attribute(n) => complexity(&alone(*e, range)) == complexity(
                &alone(*n.value, range),
            ),
            Expr::Await(n) => complexity(&alone(*e, range)) == complexity(&alone(*n.value, range)),
            Expr::BinOp(n) => complexity(&alone(*e, range)) == complexity(&alone(*n.left, range))
                + complexity(&alone(*n.right, range)) - 1,
            Expr::IfExp(n) => complexity(&alone(*e, range)) == complexity(&alone(*n.test, range))
                + complexity(&alone(*n.body, range)) + complexity(&alone(*n.orelse, range)) - 2,
            Expr::Compare(n) => n.comparators@.len() == 0 ==> complexity(&alone(*e, range))
                == complexity(&alone(*n.left, range)),
            Expr::Call(n) => n.args@.len() == 0 && n.keywords@.len() == 0 ==> complexity(
                &alone(*e, range),
            ) == complexity(&alone(*n.func, range)),
            Expr::List(n) => n.elts@.len() == 0 ==> complexity(&alone(*e, range)) == 1,
            Expr::Tuple(n) => n.elts@.len() == 0 ==> complexity(&alone(*e, range)) == 1,
            Expr::ListComp(n) => n.generators@.len() == 0 ==> complexity(&alone(*e, range)) == 1
                + complexity(&alone(*n.elt, range)),
            Expr::SetComp(n) => n.generators@.len() == 0 ==> complexity(&alone(*e, range)) == 1
                + complexity(&alone(*n.elt, range)),
            Expr::GeneratorExp(n) => n.generators@.len() == 0 ==> complexity(&alone(*e, range))
                == 1 + complexity(&alone(*n.elt, range)),
            Expr::DictComp(n) => n.generators@.len() == 0 ==> complexity(&alone(*e, range))
                == complexity(&alone(*n.key, range)) + complexity(&alone(*n.value, range)),
            _ => true,
        },
{
    broadcast use lemma_weight_both;

    let c = expressions();
    let y = operand_place();
    lemma_parts_of(e, range);
    let p = expr_parts(e, c, y);
    assert(total_weight(Seq::<Seen>::empty()) == 0);
    match e {
        Expr::BoolOp(n) => {
            if n.values@.len() == 1 {
                assert(n.values@.drop_last() =~= Seq::<Expr>::empty());
                assert(walk_exprs(Seq::<Expr>::empty(), c, y) =~= seq![]);
                assert(p =~= walk_expr(&n.values@[0], c, y));
                lemma_expr_weight(&n.values@[0], y, range);
            }
        },
        Expr::UnaryOp(n) => {
            lemma_expr_weight(&n.operand, y, range);
        },
        Expr::Attribute(n) => {
            lemma_expr_weight(&n.value, y, range);
        },
        Expr::Await(n) => {
            lemma_expr_weight(&n.value, y, range);
        },
        Expr::BinOp(n) => {
            lemma_few_both(walk_expr(&n.left, c, y), walk_expr(&n.right, c, y));
            lemma_expr_weight(&n.left, y, range);
            lemma_expr_weight(&n.right, y, range);
        },
        Expr::IfExp(n) => {
            lemma_few_both(
                walk_expr(&n.test, c, y) + walk_expr(&n.body, c, y),
                walk_expr(&n.orelse, c, y),
            );
            lemma_few_both(walk_expr(&n.test, c, y), walk_expr(&n.body, c, y));
            lemma_expr_weight(&n.test, y, range);
            lemma_expr_weight(&n.body, y, range);
            lemma_expr_weight(&n.orelse, y, range);
        },
        Expr::Compare(n) => {
            if n.comparators@.len() == 0 {
                assert(p =~= walk_expr(&n.left, c, y));
                lemma_expr_weight(&n.left, y, range);
            }
        },
        Expr::Call(n) => {
            if n.args@.len() == 0 && n.keywords@.len() == 0 {
                assert(p =~= walk_expr(&n.func, c, y));
                lemma_expr_weight(&n.func, y, range);
            }
        },
        Expr::ListComp(n) => {
            if n.generators@.len() == 0 {
                assert(p =~= walk_expr(&n.elt, c, y));
                lemma_expr_weight(&n.elt, y, range);
            }
        },
        Expr::SetComp(n) => {
            if n.generators@.len() == 0 {
                assert(p =~= walk_expr(&n.elt, c, y));
                lemma_expr_weight(&n.elt, y, range);
            }
        },
        Expr::GeneratorExp(n) => {
            if n.generators@.len() == 0 {
                assert(p =~= walk_expr(&n.elt, c, y));
                lemma_expr_weight(&n.elt, y, range);
            }
        },
        Expr::DictComp(n) => {
            if n.generators@.len() == 0 {
                assert(p =~= walk_expr(&n.key, c, y) + walk_expr(&n.value, c, y));
                lemma_few_both(walk_expr(&n.key, c, y), walk_expr(&n.value, c, y));
                lemma_expr_weight(&n.key, y, range);
                lemma_expr_weight(&n.value, y, range);
            }
        },
        _ => {},
    }
}

// ── Nesting ─────────────────────────────────────────────────────────────────

/// The larger of two numbers.
pub open spec fn larger(a: nat, b: nat) -> nat {
    if a >= b {
        a
    } else {
        b
    }
}

broadcast proof fn lemma_deepest_both(a: Seq<Seen>, b: Seq<Seen>)
    ensures
        #[trigger] deepest(a + b) == larger(deepest(a), deepest(b)),
    decreases b.len(),
{
    if b.len() == 0 {
        assert(a + b =~= a);
    } else {
        lemma_deepest_both(a, b.drop_last());
        assert((a + b).drop_last() =~= a + b.drop_last());
        assert((a + b).last() == b.last());
    }
}

proof fn lemma_deepest_moved<'a>(v: Seq<Seen<'a>>, x: At<'a>)
    requires
        v.len() > 0,
    ensures
        deepest(v.map_values(moving(x))) == deepest(v) + x.nesting,
    decreases v.len(),
{
    let m = v.map_values(moving(x));
    let rest = v.drop_last();
    assert(m.drop_last() =~= rest.map_values(moving(x)));
    if rest.len() > 0 {
        lemma_deepest_moved(rest, x);
    } else {
        assert(deepest(rest) == 0);
        assert(deepest(m.drop_last()) == 0);
    }
}

proof fn lemma_deepest_plain<'a>(v: Seq<Seen<'a>>, x: At<'a>)
    requires
        plain(v, x),
    ensures
        deepest(v) <= x.nesting,
{
    law_deepest_is_the_maximum(v);
}

proof fn lemma_stmt_depth<'a>(s: &'a Stmt, x: At<'a>)
    ensures
        deepest(walk_stmt(s, statements(), x)) == nesting(s) + x.nesting,
{
    lemma_stmt_from(s, statements(), x);
    lemma_deepest_moved(walk_stmt(s, statements(), outset()), x);
}

proof fn lemma_one_deep(v: Seen)
    ensures
        deepest(seq![v]) == v.nesting,
{
    assert(seq![v].drop_last() =~= Seq::<Seen>::empty());
    assert(deepest(Seq::<Seen>::empty()) == 0);
}

proof fn lemma_root_depth<'a>(s: &'a Stmt)
    ensures
        nesting(s) == larger(
            at_stmt(s, outset()).nesting,
            deepest(stmt_parts(s, statements(), inside(s, outset()))),
        ),
{
    broadcast use lemma_deepest_both;

    let root = Seen {
        node: Node::Stmt(s),
        depth: 0,
        nesting: at_stmt(s, outset()).nesting,
        class: None,
    };
    let parts = stmt_parts(s, statements(), inside(s, outset()));
    lemma_one_deep(root);
    assert(walk_stmt(s, statements(), outset()) =~= seq![root] + parts);
}

/// A statement behind the others of a block lies one level deeper than by itself where the
/// block is that of an `if`, a loop, a `with` or a `try`, and as deep as by itself elsewhere.
#[verifier::rlimit(40)]
pub proof fn law_blocks_nest(a: &Stmt, b: &Stmt, s: &Stmt)
    requires
        one_more(a, b, s),
    ensures
        a is If || a is While || a is For || a is AsyncFor || a is With || a is Try ==> nesting(b)
            == larger(nesting(a), nesting(s) + 1),
        a is FunctionDef || a is AsyncFunctionDef || a is ClassDef || a is AsyncWith
            || a is TryStar ==> nesting(b) == larger(nesting(a), nesting(s)),
{
    broadcast use lemma_deepest_both;

    let y = inside(a, outset());
    let (before, behind) = lemma_one_more(a, b, s, statements(), y);
    lemma_same_place(a, b, s);
    lemma_root_depth(a);
    lemma_root_depth(b);
    lemma_stmt_depth(s, y);
}

/// How deep statements are nested whose blocks are empty: an `if`, a loop, a `with` and a
/// `try` are a level of their own.
pub proof fn law_empty_blocks_nest(s: &Stmt)
    ensures
        match s {
            Stmt::If(n) => n.body@.len() == 0 && n.orelse@.len() == 0 ==> nesting(s) == 1,
            Stmt::While(n) => n.body@.len() == 0 && n.orelse@.len() == 0 ==> nesting(s) == 1,
            Stmt::For(n) => n.body@.len() == 0 && n.orelse@.len() == 0 ==> nesting(s) == 1,
            Stmt::AsyncFor(n) => n.body@.len() == 0 && n.orelse@.len() == 0 ==> nesting(s) == 1,
            Stmt::With(n) => n.body@.len() == 0 ==> nesting(s) == 1,
            Stmt::Try(n) => n.body@.len() == 0 && n.handlers@.len() == 0 && n.orelse@.len() == 0
                && n.finalbody@.len() == 0 ==> nesting(s) == 1,
            Stmt::FunctionDef(n) => n.body@.len() == 0 ==> nesting(s) == 0,
            Stmt::AsyncFunctionDef(n) => n.body@.len() == 0 ==> nesting(s) == 0,
            Stmt::Return(_) | Stmt::Expr(_) | Stmt::Assert(_) | Stmt::Pass(_) | Stmt::Break(_)
            | Stmt::Continue(_) | Stmt::Raise(_) | Stmt::AugAssign(_) => nesting(s) == 0,
            _ => true,
        },
{
    broadcast use lemma_deepest_both;

    let c = statements();
    let y = inside(s, outset());
    lemma_root_depth(s);
    assert(deepest(Seq::<Seen>::empty()) == 0);
    let none = Seq::<Stmt>::empty();
    assert(walk_stmts(none, c, y) =~= seq![]);
    assert(walk_handlers(Seq::<ExceptHandler>::empty(), c, y) =~= seq![]);
    match s {
        Stmt::If(n) => {
            lemma_plain_expr(&n.test, c, y);
            lemma_deepest_plain(walk_expr(&n.test, c, y), y);
        },
        Stmt::While(n) => {
            lemma_plain_expr(&n.test, c, y);
            lemma_deepest_plain(walk_expr(&n.test, c, y), y);
        },
        Stmt::For(n) => {
            lemma_plain_expr(&n.target, c, y);
            lemma_plain_expr(&n.iter, c, y);
            lemma_deepest_plain(walk_expr(&n.target, c, y), y);
            lemma_deepest_plain(walk_expr(&n.iter, c, y), y);
        },
        Stmt::AsyncFor(n) => {
            lemma_plain_expr(&n.target, c, y);
            lemma_plain_expr(&n.iter, c, y);
            lemma_deepest_plain(walk_expr(&n.target, c, y), y);
            lemma_deepest_plain(walk_expr(&n.iter, c, y), y);
        },
        Stmt::With(n) => {
            lemma_plain_with_items(n.items@, c, y);
            lemma_deepest_plain(walk_with_items(n.items@, c, y), y);
        },
        Stmt::FunctionDef(n) => {
            lemma_plain_arguments(&n.args, c, y);
            lemma_plain_exprs(n.decorator_list@, c, y);
            lemma_plain_opt_expr(n.returns, c, y);
            lemma_plain_type_params(n.type_params@, c, y);
            lemma_deepest_plain(walk_arguments(&n.args, c, y), y);
            lemma_deepest_plain(walk_exprs(n.decorator_list@, c, y), y);
            lemma_deepest_plain(walk_opt_expr(n.returns, c, y), y);
            lemma_deepest_plain(walk_type_params(n.type_params@, c, y), y);
        },
        Stmt::AsyncFunctionDef(n) => {
            lemma_plain_arguments(&n.args, c, y);
            lemma_plain_exprs(n.decorator_list@, c, y);
            lemma_plain_opt_expr(n.returns, c, y);
            lemma_plain_type_params(n.type_params@, c, y);
            lemma_deepest_plain(walk_arguments(&n.args, c, y), y);
            lemma_deepest_plain(walk_exprs(n.decorator_list@, c, y), y);
            lemma_deepest_plain(walk_opt_expr(n.returns, c, y), y);
            lemma_deepest_plain(walk_type_params(n.type_params@, c, y), y);
        },
        Stmt::Return(n) => {
            lemma_plain_opt_expr(n.value, c, y);
            lemma_deepest_plain(walk_opt_expr(n.value, c, y), y);
        },
        Stmt::Expr(n) => {
            lemma_plain_expr(&n.value, c, y);
            lemma_deepest_plain(walk_expr(&n.value, c, y), y);
        },
        Stmt::Assert(n) => {
            lemma_plain_expr(&n.test, c, y);
            lemma_plain_opt_expr(n.msg, c, y);
            lemma_deepest_plain(walk_expr(&n.test, c, y), y);
            lemma_deepest_plain(walk_opt_expr(n.msg, c, y), y);
        },
        Stmt::Raise(n) => {
            lemma_plain_opt_expr(n.exc, c, y);
            lemma_plain_opt_expr(n.cause, c, y);
            lemma_deepest_plain(walk_opt_expr(n.exc, c, y), y);
            lemma_deepest_plain(walk_opt_expr(n.cause, c, y), y);
        },
        Stmt::AugAssign(n) => {
            lemma_plain_expr(&n.target, c, y);
            lemma_plain_expr(&n.value, c, y);
            lemma_deepest_plain(walk_expr(&n.target, c, y), y);
            lemma_deepest_plain(walk_expr(&n.value, c, y), y);
        },
        _ => {},
    }
}

proof fn lemma_block_depth<'a>(t: &Stmt, body: Seq<Stmt>, x: At<'a>)
    requires
        t matches Stmt::TryStar(k) && k.handlers@.len() == 0 && k.orelse@.len() == 0
            && k.finalbody@.len() == 0 && k.body@ == body,
    ensures
        walk_stmts(body, statements(), x).len() > 0 ==> deepest(
            walk_stmts(body, statements(), x),
        ) == nesting(t) + x.nesting,
        walk_stmts(body, statements(), x).len() == 0 ==> nesting(t) == 0,
{
    let c = statements();
    let u = inside(t, outset());
    lemma_root_depth(t);
    lemma_stmts_from(body, c, x);
    lemma_stmts_from(body, c, u);
    let v = walk_stmts(body, c, outset());
    assert(stmt_parts(t, c, u) =~= walk_stmts(body, c, u));
    assert(deepest(Seq::<Seen>::empty()) == 0);
    if v.len() > 0 {
        lemma_deepest_moved(v, x);
        lemma_deepest_moved(v, u);
    } else {
        assert(walk_stmts(body, c, u) =~= seq![]);
    }
}

proof fn lemma_handler_depth<'a>(h: ExceptHandler, t: &Stmt, y: At<'a>)
    requires
        t matches Stmt::TryStar(k) && k.handlers@.len() == 0 && k.orelse@.len() == 0
            && k.finalbody@.len() == 0 && match h {
            ExceptHandler::ExceptHandler(n) => n.body@ == k.body@,
        },
    ensures
        deepest(walk_handler(&h, statements(), y)) == nesting(t) + y.nesting + 1,
{
    broadcast use lemma_deepest_both;

    let c = statements();
    match h {
        ExceptHandler::ExceptHandler(k) => {
            let z = within(y);
            let root = Seen {
                node: Node::Handler(&k),
                depth: z.depth,
                nesting: z.nesting,
                class: z.class,
            };
            lemma_one_deep(root);
            lemma_plain_opt_expr(k.type_, c, z);
            lemma_deepest_plain(walk_opt_expr(k.type_, c, z), z);
            lemma_block_depth(t, k.body@, z);
            assert(walk_handler(&h, c, y) == seq![root] + walk_opt_expr(k.type_, c, z)
                + walk_stmts(k.body@, c, z));
            assert(deepest(Seq::<Seen>::empty()) == 0);
            if walk_stmts(k.body@, c, z).len() == 0 {
                assert(walk_stmts(k.body@, c, z) =~= seq![]);
            }
        },
    }
}

proof fn lemma_last_handler<'a>(handlers: Seq<ExceptHandler>, h: ExceptHandler, y: At<'a>)
    ensures
        deepest(walk_handlers(handlers.push(h), statements(), y)) == larger(
            deepest(walk_handlers(handlers, statements(), y)),
            deepest(walk_handler(&h, statements(), y)),
        ),
{
    broadcast use lemma_deepest_both;

    assert(handlers.push(h).drop_last() =~= handlers);
}

/// The block of an exception handler lies one level deeper than the blocks of its `try`.
#[verifier::rlimit(40)]
pub proof fn law_handlers_nest(a: &Stmt, b: &Stmt, h: ExceptHandler, t: &Stmt)
    requires
        one_more_handler(a, b, h, t),
    ensures
        a is Try ==> nesting(b) == larger(nesting(a), nesting(t) + 2),
        a is TryStar ==> nesting(b) == larger(nesting(a), nesting(t) + 1),
{
    broadcast use lemma_deepest_both;

    let y = inside(b, outset());
    lemma_root_depth(a);
    lemma_root_depth(b);
    lemma_handler_depth(h, t, y);
    match a {
        Stmt::Try(m) => lemma_last_handler(m.handlers@, h, y),
        Stmt::TryStar(m) => lemma_last_handler(m.handlers@, h, y),
        _ => {},
    }
}

// ── Returns ─────────────────────────────────────────────────────────────────

broadcast proof fn lemma_returns_both(a: Seq<Seen>, b: Seq<Seen>)
    ensures
        #[trigger] count_returns(a + b) == count_returns(a) + count_returns(b),
    decreases b.len(),
{
    if b.len() == 0 {
        assert(a + b =~= a);
    } else {
        lemma_returns_both(a, b.drop_last());
        assert((a + b).drop_last() =~= a + b.drop_last());
        assert((a + b).last() == b.last());
    }
}

proof fn lemma_returns_moved<'a>(v: Seq<Seen<'a>>, x: At<'a>)
    ensures
        count_returns(v.map_values(moving(x))) == count_returns(v),
    decreases v.len(),
{
    if v.len() > 0 {
        let m = v.map_values(moving(x));
        lemma_returns_moved(v.drop_last(), x);
        assert(m.drop_last() =~= v.drop_last().map_values(moving(x)));
    }
}

proof fn lemma_returns_plain<'a>(v: Seq<Seen<'a>>, x: At<'a>)
    requires
        plain(v, x),
    ensures
        count_returns(v) == 0,
    decreases v.len(),
{
    if v.len() > 0 {
        let rest = v.drop_last();
        assert forall|i: int| 0 <= i < rest.len() implies (#[trigger] rest[i]).nesting == x.nesting
            && rest[i].class == x.class && !(rest[i].node is Stmt) && !(rest[i].node is Handler)
            && !(rest[i].node is Case) by {
            assert(rest[i] == v[i]);
        }
        lemma_returns_plain(rest, x);
        assert(v[v.len() - 1] == v.last());
    }
}

proof fn lemma_own_returns<'a>(f: &'a Stmt, x: At<'a>)
    requires
        is_def(f),
    ensures
        own_returns(f) == count_returns(walk_stmts(def_body(f), own_statements(), x)),
{
    broadcast use lemma_returns_both;

    let c = own_statements();
    let o = outset();
    lemma_stmts_from(def_body(f), c, x);
    lemma_returns_moved(walk_stmts(def_body(f), c, o), x);
    match f {
        Stmt::FunctionDef(n) => {
            lemma_plain_arguments(&n.args, c, o);
            lemma_plain_exprs(n.decorator_list@, c, o);
            lemma_plain_opt_expr(n.returns, c, o);
            lemma_plain_type_params(n.type_params@, c, o);
            lemma_returns_plain(walk_arguments(&n.args, c, o), o);
            lemma_returns_plain(walk_exprs(n.decorator_list@, c, o), o);
            lemma_returns_plain(walk_opt_expr(n.returns, c, o), o);
            lemma_returns_plain(walk_type_params(n.type_params@, c, o), o);
        },
        Stmt::AsyncFunctionDef(n) => {
            lemma_plain_arguments(&n.args, c, o);
            lemma_plain_exprs(n.decorator_list@, c, o);
            lemma_plain_opt_expr(n.returns, c, o);
            lemma_plain_type_params(n.type_params@, c, o);
            lemma_returns_plain(walk_arguments(&n.args, c, o), o);
            lemma_returns_plain(walk_exprs(n.decorator_list@, c, o), o);
            lemma_returns_plain(walk_opt_expr(n.returns, c, o), o);
            lemma_returns_plain(walk_type_params(n.type_params@, c, o), o);
        },
        _ => {},
    }
}

/// The returns of a function are those of the two halves of its body, wherever it is parted.
pub proof fn law_returns_add_up(whole: &Stmt, first: &Stmt, second: &Stmt)
    requires
        is_def(whole),
        is_def(first),
        is_def(second),
        def_body(whole) == def_body(first) + def_body(second),
    ensures
        own_returns(whole) == own_returns(first) + own_returns(second),
{
    broadcast use lemma_returns_both;

    lemma_own_returns(whole, outset());
    lemma_own_returns(first, outset());
    lemma_own_returns(second, outset());
    lemma_stmts_both(def_body(first), def_body(second), own_statements(), outset());
}

/// How many returns a function has whose body is one statement: one for a `return`, none for
/// a nested function, and those of its blocks for an `if`, a loop or a `with`. `first` and
/// `second` are functions with these blocks as their bodies.
#[verifier::rlimit(40)]
pub proof fn law_returns_of_a_statement(f: &Stmt, first: &Stmt, second: &Stmt)
    requires
        is_def(f),
        is_def(first),
        is_def(second),
        def_body(f).len() == 1,
    ensures
        match def_body(f)[0] {
            Stmt::Return(_) => own_returns(f) == 1,
            Stmt::FunctionDef(_) | Stmt::AsyncFunctionDef(_) => own_returns(f) == 0,
            Stmt::Pass(_) | Stmt::Break(_) | Stmt::Continue(_) | Stmt::Raise(_) | Stmt::Expr(_)
            | Stmt::AugAssign(_) | Stmt::Import(_) | Stmt::ImportFrom(_) => own_returns(f) == 0,
            Stmt::If(n) => def_body(first) == n.body@ && def_body(second) == n.orelse@
                ==> own_returns(f) == own_returns(first) + own_returns(second),
            Stmt::While(n) => def_body(first) == n.body@ && def_body(second) == n.orelse@
                ==> own_returns(f) == own_returns(first) + own_returns(second),
            Stmt::For(n) => def_body(first) == n.body@ && def_body(second) == n.orelse@
                ==> own_returns(f) == own_returns(first) + own_returns(second),
            Stmt::AsyncFor(n) => def_body(first) == n.body@ && def_body(second) == n.orelse@
                ==> own_returns(f) == own_returns(first) + own_returns(second),
            Stmt::With(n) => def_body(first) == n.body@ ==> own_returns(f) == own_returns(first),
            Stmt::AsyncWith(n) => def_body(first) == n.body@ ==> own_returns(f) == own_returns(
                first,
            ),
            _ => true,
        },
{
    broadcast use lemma_returns_both;

    let c = own_statements();
    let s = def_body(f)[0];
    let y = inside(&s, outset());
    lemma_own_returns(f, outset());
    lemma_own_returns(first, y);
    lemma_own_returns(second, y);
    assert(def_body(f).drop_last() =~= Seq::<Stmt>::empty());
    assert(walk_stmts(Seq::<Stmt>::empty(), c, outset()) =~= seq![]);
    assert(walk_stmts(def_body(f), c, outset()) =~= walk_stmt(&s, c, outset()));
    let root = Seen {
        node: Node::Stmt(&s),
        depth: 0,
        nesting: at_stmt(&s, outset()).nesting,
        class: None,
    };
    assert(seq![root].drop_last() =~= Seq::<Seen>::empty());
    assert(count_returns(Seq::<Seen>::empty()) == 0);
    let parts = stmt_parts(&s, c, y);
    match s {
        Stmt::Return(n) => {
            assert(walk_stmt(&s, c, outset()) =~= seq![root] + parts);
            lemma_plain_opt_expr(n.value, c, y);
            lemma_returns_plain(walk_opt_expr(n.value, c, y), y);
        },
        Stmt::FunctionDef(_) | Stmt::AsyncFunctionDef(_) => {
            assert(walk_stmt(&s, c, outset()) =~= seq![root]);
        },
        Stmt::Raise(n) => {
            assert(walk_stmt(&s, c, outset()) =~= seq![root] + parts);
            lemma_plain_opt_expr(n.exc, c, y);
            lemma_plain_opt_expr(n.cause, c, y);
            lemma_returns_plain(walk_opt_expr(n.exc, c, y), y);
            lemma_returns_plain(walk_opt_expr(n.cause, c, y), y);
        },
        Stmt::Expr(n) => {
            assert(walk_stmt(&s, c, outset()) =~= seq![root] + parts);
            lemma_plain_expr(&n.value, c, y);
            lemma_returns_plain(walk_expr(&n.value, c, y), y);
        },
        Stmt::AugAssign(n) => {
            assert(walk_stmt(&s, c, outset()) =~= seq![root] + parts);
            lemma_plain_expr(&n.target, c, y);
            lemma_plain_expr(&n.value, c, y);
            lemma_returns_plain(walk_expr(&n.target, c, y), y);
            lemma_returns_plain(walk_expr(&n.value, c, y), y);
        },
        Stmt::If(n) => {
            assert(walk_stmt(&s, c, outset()) =~= seq![root] + parts);
            lemma_plain_expr(&n.test, c, y);
            lemma_returns_plain(walk_expr(&n.test, c, y), y);
        },
        Stmt::While(n) => {
            assert(walk_stmt(&s, c, outset()) =~= seq![root] + parts);
            lemma_plain_expr(&n.test, c, y);
            lemma_returns_plain(walk_expr(&n.test, c, y), y);
        },
        Stmt::For(n) => {
            assert(walk_stmt(&s, c, outset()) =~= seq![root] + parts);
            lemma_plain_expr(&n.target, c, y);
            lemma_plain_expr(&n.iter, c, y);
            lemma_returns_plain(walk_expr(&n.target, c, y), y);
            lemma_returns_plain(walk_expr(&n.iter, c, y), y);
        },
        Stmt::AsyncFor(n) => {
            assert(walk_stmt(&s, c, outset()) =~= seq![root] + parts);
            lemma_plain_expr(&n.target, c, y);
            lemma_plain_expr(&n.iter, c, y);
            lemma_returns_plain(walk_expr(&n.target, c, y), y);
            lemma_returns_plain(walk_expr(&n.iter, c, y), y);
        },
        Stmt::With(n) => {
            assert(walk_stmt(&s, c, outset()) =~= seq![root] + parts);
            lemma_plain_with_items(n.items@, c, y);
            lemma_returns_plain(walk_with_items(n.items@, c, y), y);
        },
        Stmt::AsyncWith(n) => {
            assert(walk_stmt(&s, c, outset()) =~= seq![root] + parts);
            lemma_plain_with_items(n.items@, c, y);
            lemma_returns_plain(walk_with_items(n.items@, c, y), y);
        },
        _ => {
            assert(s is Pass || s is Break || s is Continue || s is Import || s is ImportFrom
                ==> walk_stmt(&s, c, outset()) =~= seq![root]);
        },
    }
}

} // verus!
