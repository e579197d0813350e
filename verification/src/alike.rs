//! When two syntax trees are alike: they are of the same kind, and so are their parts, one by one;
//! where they stand does not matter.

use crate::ast_helpers::{dump, law_dumps_tell_blocks_apart};
use crate::structure::{
    alias_shape, alias_shapes, arg_shape, arguments_shape, bool_op_name, byte_shapes, case_shape, case_shapes, comparison_name, comparison_shapes, comprehension_shape, comprehension_shapes, constant_shape, constant_shapes, context_name, conversion_name, expr_shape, expr_shapes, flag_name, handler_shape, handler_shapes, keyword_shape, keyword_shapes, name_shapes, opt_arg_shape, opt_expr_shape, opt_expr_shapes, opt_int_shape, opt_name_shape, opt_pattern_shape, opt_text_shape, param_shape, param_shapes, pattern_shape, pattern_shapes, stmt_shape, stmt_shapes, type_param_shape, type_param_shapes, unary_op_name, with_item_shape, with_item_shapes, Shape,
};
use crate::syntax::{float_texts, identifier_text, int_value, integer_text};
use crate::text::{dec, law_decimals_tell_numbers_apart};
use crate::unparse::operator_name;
use rustpython_ast::{
    Alias, Arg, ArgWithDefault, Arguments, BoolOp, CmpOp, Comprehension, Constant, ConversionFlag, ExceptHandler, Expr, ExprContext, Identifier, Int, Keyword, MatchCase, Operator, Pattern, Stmt, TypeParam, UnaryOp, WithItem,
};
use vstd::prelude::*;
use vstd::string::*;

verus! {

/// Two lists of at most one part are the same exactly where both are empty or the parts are the
/// same.
proof fn lemma_one(x: Shape, y: Shape)
    requires
        x matches Shape::List(l) && l.len() <= 1,
        y matches Shape::List(l) && l.len() <= 1,
    ensures
        x == y <==> x->List_0.len() == y->List_0.len() && (x->List_0.len() == 1 ==> x->List_0[0]
            == y->List_0[0]),
{
    let l = x->List_0;
    let m = y->List_0;
    if l.len() == m.len() && (l.len() == 1 ==> l[0] == m[0]) {
        assert(l =~= m);
    }
}

proof fn lemma_operator_names(x: Operator, y: Operator)
    ensures
        operator_name(x) == operator_name(y) <==> x == y,
{
    reveal_strlit("Add");
    assert("Add"@.len() == 3);
    reveal_strlit("Sub");
    assert("Sub"@.len() == 3);
    reveal_strlit("Mult");
    assert("Mult"@.len() == 4);
    reveal_strlit("MatMult");
    assert("MatMult"@.len() == 7);
    reveal_strlit("Div");
    assert("Div"@.len() == 3);
    reveal_strlit("Mod");
    assert("Mod"@.len() == 3);
    reveal_strlit("Pow");
    assert("Pow"@.len() == 3);
    reveal_strlit("LShift");
    assert("LShift"@.len() == 6);
    reveal_strlit("RShift");
    assert("RShift"@.len() == 6);
    reveal_strlit("BitOr");
    assert("BitOr"@.len() == 5);
    reveal_strlit("BitXor");
    assert("BitXor"@.len() == 6);
    reveal_strlit("BitAnd");
    assert("BitAnd"@.len() == 6);
    reveal_strlit("FloorDiv");
    assert("FloorDiv"@.len() == 8);
    assert("Add"@[0] != "Sub"@[0]);
    assert("Add"@[0] != "Div"@[0]);
    assert("Add"@[0] != "Mod"@[0]);
    assert("Add"@[0] != "Pow"@[0]);
    assert("Sub"@[0] != "Div"@[0]);
    assert("Sub"@[0] != "Mod"@[0]);
    assert("Sub"@[0] != "Pow"@[0]);
    assert("Div"@[0] != "Mod"@[0]);
    assert("Div"@[0] != "Pow"@[0]);
    assert("Mod"@[0] != "Pow"@[0]);
    assert("LShift"@[0] != "RShift"@[0]);
    assert("LShift"@[0] != "BitXor"@[0]);
    assert("LShift"@[0] != "BitAnd"@[0]);
    assert("RShift"@[0] != "BitXor"@[0]);
    assert("RShift"@[0] != "BitAnd"@[0]);
    assert("BitXor"@[3] != "BitAnd"@[3]);
}

proof fn lemma_bool_op_names(x: BoolOp, y: BoolOp)
    ensures
        bool_op_name(x) == bool_op_name(y) <==> x == y,
{
    reveal_strlit("And");
    assert("And"@.len() == 3);
    reveal_strlit("Or");
    assert("Or"@.len() == 2);
}

proof fn lemma_unary_op_names(x: UnaryOp, y: UnaryOp)
    ensures
        unary_op_name(x) == unary_op_name(y) <==> x == y,
{
    reveal_strlit("Invert");
    assert("Invert"@.len() == 6);
    reveal_strlit("Not");
    assert("Not"@.len() == 3);
    reveal_strlit("UAdd");
    assert("UAdd"@.len() == 4);
    reveal_strlit("USub");
    assert("USub"@.len() == 4);
    assert("UAdd"@[1] != "USub"@[1]);
}

proof fn lemma_comparison_names(x: CmpOp, y: CmpOp)
    ensures
        comparison_name(x) == comparison_name(y) <==> x == y,
{
    reveal_strlit("Eq");
    assert("Eq"@.len() == 2);
    reveal_strlit("NotEq");
    assert("NotEq"@.len() == 5);
    reveal_strlit("Lt");
    assert("Lt"@.len() == 2);
    reveal_strlit("LtE");
    assert("LtE"@.len() == 3);
    reveal_strlit("Gt");
    assert("Gt"@.len() == 2);
    reveal_strlit("GtE");
    assert("GtE"@.len() == 3);
    reveal_strlit("Is");
    assert("Is"@.len() == 2);
    reveal_strlit("IsNot");
    assert("IsNot"@.len() == 5);
    reveal_strlit("In");
    assert("In"@.len() == 2);
    reveal_strlit("NotIn");
    assert("NotIn"@.len() == 5);
    assert("Eq"@[0] != "Lt"@[0]);
    assert("Eq"@[0] != "Gt"@[0]);
    assert("Eq"@[0] != "Is"@[0]);
    assert("Eq"@[0] != "In"@[0]);
    assert("NotEq"@[0] != "IsNot"@[0]);
    assert("NotEq"@[3] != "NotIn"@[3]);
    assert("Lt"@[0] != "Gt"@[0]);
    assert("Lt"@[0] != "Is"@[0]);
    assert("Lt"@[0] != "In"@[0]);
    assert("LtE"@[0] != "GtE"@[0]);
    assert("Gt"@[0] != "Is"@[0]);
    assert("Gt"@[0] != "In"@[0]);
    assert("Is"@[1] != "In"@[1]);
    assert("IsNot"@[0] != "NotIn"@[0]);
}

proof fn lemma_context_names(x: ExprContext, y: ExprContext)
    ensures
        context_name(x) == context_name(y) <==> x == y,
{
    reveal_strlit("Load");
    assert("Load"@.len() == 4);
    reveal_strlit("Store");
    assert("Store"@.len() == 5);
    reveal_strlit("Del");
    assert("Del"@.len() == 3);
}

proof fn lemma_conversion_names(x: ConversionFlag, y: ConversionFlag)
    ensures
        conversion_name(x) == conversion_name(y) <==> x == y,
{
    reveal_strlit("None");
    assert("None"@.len() == 4);
    reveal_strlit("Str");
    assert("Str"@.len() == 3);
    reveal_strlit("Ascii");
    assert("Ascii"@.len() == 5);
    reveal_strlit("Repr");
    assert("Repr"@.len() == 4);
    assert("None"@[0] != "Repr"@[0]);
}

proof fn lemma_flags()
    ensures
        flag_name(true) != flag_name(false),
{
    reveal_strlit("True");
    assert("True"@.len() == 4);
    reveal_strlit("False");
    assert("False"@.len() == 5);
}

/// Whether two texts that may be absent are the same.
pub open spec fn opt_texts_alike(a: Option<String>, b: Option<String>) -> bool {
    match (a, b) {
        (Some(p), Some(q)) => p@ == q@,
        (None, None) => true,
        _ => false,
    }
}

proof fn lemma_opt_texts_alike(a: Option<String>, b: Option<String>)
    ensures
        opt_text_shape(a) == opt_text_shape(b) <==> opt_texts_alike(a, b),
{
    lemma_one(opt_text_shape(a), opt_text_shape(b));
}

/// Whether two names that may be absent are the same.
pub open spec fn opt_names_alike(a: Option<Identifier>, b: Option<Identifier>) -> bool {
    match (a, b) {
        (Some(p), Some(q)) => identifier_text(p) == identifier_text(q),
        (None, None) => true,
        _ => false,
    }
}

proof fn lemma_opt_names_alike(a: Option<Identifier>, b: Option<Identifier>)
    ensures
        opt_name_shape(a) == opt_name_shape(b) <==> opt_names_alike(a, b),
{
    lemma_one(opt_name_shape(a), opt_name_shape(b));
}

/// Whether two small numbers that may be absent are the same.
pub open spec fn opt_ints_alike(a: Option<Int>, b: Option<Int>) -> bool {
    match (a, b) {
        (Some(p), Some(q)) => int_value(p) == int_value(q),
        (None, None) => true,
        _ => false,
    }
}

proof fn lemma_opt_ints_alike(a: Option<Int>, b: Option<Int>)
    ensures
        opt_int_shape(a) == opt_int_shape(b) <==> opt_ints_alike(a, b),
{
    lemma_one(opt_int_shape(a), opt_int_shape(b));
    match (a, b) {
        (Some(p), Some(q)) => {
            law_decimals_tell_numbers_apart(int_value(p) as nat, int_value(q) as nat);
        },
        _ => {},
    }
}

/// Whether two expressions that may be absent are alike.
pub open spec fn opt_exprs_alike(a: Option<Box<Expr>>, b: Option<Box<Expr>>) -> bool {
    match (a, b) {
        (Some(p), Some(q)) => expr_shape(&*p) == expr_shape(&*q),
        (None, None) => true,
        _ => false,
    }
}

proof fn lemma_opt_exprs_alike(a: Option<Box<Expr>>, b: Option<Box<Expr>>)
    ensures
        opt_expr_shape(a) == opt_expr_shape(b) <==> opt_exprs_alike(a, b),
{
    lemma_one(opt_expr_shape(a), opt_expr_shape(b));
}

/// Whether two parameters that may be absent are alike.
pub open spec fn opt_args_alike(a: Option<Box<Arg>>, b: Option<Box<Arg>>) -> bool {
    match (a, b) {
        (Some(p), Some(q)) => arg_shape(&*p) == arg_shape(&*q),
        (None, None) => true,
        _ => false,
    }
}

proof fn lemma_opt_args_alike(a: Option<Box<Arg>>, b: Option<Box<Arg>>)
    ensures
        opt_arg_shape(a) == opt_arg_shape(b) <==> opt_args_alike(a, b),
{
    lemma_one(opt_arg_shape(a), opt_arg_shape(b));
}

/// Whether two patterns that may be absent are alike.
pub open spec fn opt_patterns_alike(a: Option<Box<Pattern>>, b: Option<Box<Pattern>>) -> bool {
    match (a, b) {
        (Some(p), Some(q)) => pattern_shape(&*p) == pattern_shape(&*q),
        (None, None) => true,
        _ => false,
    }
}

proof fn lemma_opt_patterns_alike(a: Option<Box<Pattern>>, b: Option<Box<Pattern>>)
    ensures
        opt_pattern_shape(a) == opt_pattern_shape(b) <==> opt_patterns_alike(a, b),
{
    lemma_one(opt_pattern_shape(a), opt_pattern_shape(b));
}

/// Whether two lists of literals are as long, and alike one by one.
pub open spec fn constants_alike(a: Seq<Constant>, b: Seq<Constant>) -> bool {
    a.len() == b.len() && forall|i: int|
        0 <= i < a.len() ==> constant_shape(&#[trigger] a[i]) == constant_shape(&b[i])
}

proof fn lemma_constants_each(a: Seq<Constant>)
    ensures
        constant_shapes(a).len() == a.len(),
        forall|i: int| 0 <= i < a.len() ==> #[trigger] constant_shapes(a)[i] == constant_shape(&a[i]),
    decreases a.len(),
{
    if a.len() > 0 {
        lemma_constants_each(a.drop_last());
    }
}

proof fn lemma_constants_alike(a: Seq<Constant>, b: Seq<Constant>)
    ensures
        Shape::List(constant_shapes(a)) == Shape::List(constant_shapes(b)) <==> constants_alike(a, b),
{
    lemma_constants_each(a);
    lemma_constants_each(b);
    let l = constant_shapes(a);
    let m = constant_shapes(b);
    if l == m {
        assert forall|i: int| 0 <= i < a.len() implies constant_shape(&#[trigger] a[i]) == constant_shape(&b[i]) by {
            assert(l[i] == m[i]);
        }
    }
    if constants_alike(a, b) {
        assert(l =~= m) by {
            assert forall|i: int| 0 <= i < l.len() implies l[i] == m[i] by {
                assert(a[i] == a[i] && b[i] == b[i]);
            }
        }
    }
}

/// Whether two lists of expressions are as long, and alike one by one.
pub open spec fn exprs_alike(a: Seq<Expr>, b: Seq<Expr>) -> bool {
    a.len() == b.len() && forall|i: int|
        0 <= i < a.len() ==> expr_shape(&#[trigger] a[i]) == expr_shape(&b[i])
}

proof fn lemma_exprs_each(a: Seq<Expr>)
    ensures
        expr_shapes(a).len() == a.len(),
        forall|i: int| 0 <= i < a.len() ==> #[trigger] expr_shapes(a)[i] == expr_shape(&a[i]),
    decreases a.len(),
{
    if a.len() > 0 {
        lemma_exprs_each(a.drop_last());
    }
}

proof fn lemma_exprs_alike(a: Seq<Expr>, b: Seq<Expr>)
    ensures
        Shape::List(expr_shapes(a)) == Shape::List(expr_shapes(b)) <==> exprs_alike(a, b),
{
    lemma_exprs_each(a);
    lemma_exprs_each(b);
    let l = expr_shapes(a);
    let m = expr_shapes(b);
    if l == m {
        assert forall|i: int| 0 <= i < a.len() implies expr_shape(&#[trigger] a[i]) == expr_shape(&b[i]) by {
            assert(l[i] == m[i]);
        }
    }
    if exprs_alike(a, b) {
        assert(l =~= m) by {
            assert forall|i: int| 0 <= i < l.len() implies l[i] == m[i] by {
                assert(a[i] == a[i] && b[i] == b[i]);
            }
        }
    }
}

/// Whether two lists of clauses of comprehensions are as long, and alike one by one.
pub open spec fn comprehensions_alike(a: Seq<Comprehension>, b: Seq<Comprehension>) -> bool {
    a.len() == b.len() && forall|i: int|
        0 <= i < a.len() ==> comprehension_shape(&#[trigger] a[i]) == comprehension_shape(&b[i])
}

proof fn lemma_comprehensions_each(a: Seq<Comprehension>)
    ensures
        comprehension_shapes(a).len() == a.len(),
        forall|i: int| 0 <= i < a.len() ==> #[trigger] comprehension_shapes(a)[i] == comprehension_shape(&a[i]),
    decreases a.len(),
{
    if a.len() > 0 {
        lemma_comprehensions_each(a.drop_last());
    }
}

proof fn lemma_comprehensions_alike(a: Seq<Comprehension>, b: Seq<Comprehension>)
    ensures
        Shape::List(comprehension_shapes(a)) == Shape::List(comprehension_shapes(b)) <==> comprehensions_alike(a, b),
{
    lemma_comprehensions_each(a);
    lemma_comprehensions_each(b);
    let l = comprehension_shapes(a);
    let m = comprehension_shapes(b);
    if l == m {
        assert forall|i: int| 0 <= i < a.len() implies comprehension_shape(&#[trigger] a[i]) == comprehension_shape(&b[i]) by {
            assert(l[i] == m[i]);
        }
    }
    if comprehensions_alike(a, b) {
        assert(l =~= m) by {
            assert forall|i: int| 0 <= i < l.len() implies l[i] == m[i] by {
                assert(a[i] == a[i] && b[i] == b[i]);
            }
        }
    }
}

/// Whether two lists of keyword arguments are as long, and alike one by one.
pub open spec fn keywords_alike(a: Seq<Keyword>, b: Seq<Keyword>) -> bool {
    a.len() == b.len() && forall|i: int|
        0 <= i < a.len() ==> keyword_shape(&#[trigger] a[i]) == keyword_shape(&b[i])
}

proof fn lemma_keywords_each(a: Seq<Keyword>)
    ensures
        keyword_shapes(a).len() == a.len(),
        forall|i: int| 0 <= i < a.len() ==> #[trigger] keyword_shapes(a)[i] == keyword_shape(&a[i]),
    decreases a.len(),
{
    if a.len() > 0 {
        lemma_keywords_each(a.drop_last());
    }
}

proof fn lemma_keywords_alike(a: Seq<Keyword>, b: Seq<Keyword>)
    ensures
        Shape::List(keyword_shapes(a)) == Shape::List(keyword_shapes(b)) <==> keywords_alike(a, b),
{
    lemma_keywords_each(a);
    lemma_keywords_each(b);
    let l = keyword_shapes(a);
    let m = keyword_shapes(b);
    if l == m {
        assert forall|i: int| 0 <= i < a.len() implies keyword_shape(&#[trigger] a[i]) == keyword_shape(&b[i]) by {
            assert(l[i] == m[i]);
        }
    }
    if keywords_alike(a, b) {
        assert(l =~= m) by {
            assert forall|i: int| 0 <= i < l.len() implies l[i] == m[i] by {
                assert(a[i] == a[i] && b[i] == b[i]);
            }
        }
    }
}

/// Whether two lists of parameters with their defaults are as long, and alike one by one.
pub open spec fn params_alike(a: Seq<ArgWithDefault>, b: Seq<ArgWithDefault>) -> bool {
    a.len() == b.len() && forall|i: int|
        0 <= i < a.len() ==> param_shape(&#[trigger] a[i]) == param_shape(&b[i])
}

proof fn lemma_params_each(a: Seq<ArgWithDefault>)
    ensures
        param_shapes(a).len() == a.len(),
        forall|i: int| 0 <= i < a.len() ==> #[trigger] param_shapes(a)[i] == param_shape(&a[i]),
    decreases a.len(),
{
    if a.len() > 0 {
        lemma_params_each(a.drop_last());
    }
}

proof fn lemma_params_alike(a: Seq<ArgWithDefault>, b: Seq<ArgWithDefault>)
    ensures
        Shape::List(param_shapes(a)) == Shape::List(param_shapes(b)) <==> params_alike(a, b),
{
    lemma_params_each(a);
    lemma_params_each(b);
    let l = param_shapes(a);
    let m = param_shapes(b);
    if l == m {
        assert forall|i: int| 0 <= i < a.len() implies param_shape(&#[trigger] a[i]) == param_shape(&b[i]) by {
            assert(l[i] == m[i]);
        }
    }
    if params_alike(a, b) {
        assert(l =~= m) by {
            assert forall|i: int| 0 <= i < l.len() implies l[i] == m[i] by {
                assert(a[i] == a[i] && b[i] == b[i]);
            }
        }
    }
}

/// Whether two lists of statements are as long, and alike one by one.
pub open spec fn stmts_alike(a: Seq<Stmt>, b: Seq<Stmt>) -> bool {
    a.len() == b.len() && forall|i: int|
        0 <= i < a.len() ==> stmt_shape(&#[trigger] a[i]) == stmt_shape(&b[i])
}

proof fn lemma_stmts_each(a: Seq<Stmt>)
    ensures
        stmt_shapes(a).len() == a.len(),
        forall|i: int| 0 <= i < a.len() ==> #[trigger] stmt_shapes(a)[i] == stmt_shape(&a[i]),
    decreases a.len(),
{
    if a.len() > 0 {
        lemma_stmts_each(a.drop_last());
    }
}

proof fn lemma_stmts_alike(a: Seq<Stmt>, b: Seq<Stmt>)
    ensures
        Shape::List(stmt_shapes(a)) == Shape::List(stmt_shapes(b)) <==> stmts_alike(a, b),
{
    lemma_stmts_each(a);
    lemma_stmts_each(b);
    let l = stmt_shapes(a);
    let m = stmt_shapes(b);
    if l == m {
        assert forall|i: int| 0 <= i < a.len() implies stmt_shape(&#[trigger] a[i]) == stmt_shape(&b[i]) by {
            assert(l[i] == m[i]);
        }
    }
    if stmts_alike(a, b) {
        assert(l =~= m) by {
            assert forall|i: int| 0 <= i < l.len() implies l[i] == m[i] by {
                assert(a[i] == a[i] && b[i] == b[i]);
            }
        }
    }
}

/// Whether two lists of exception handlers are as long, and alike one by one.
pub open spec fn handlers_alike(a: Seq<ExceptHandler>, b: Seq<ExceptHandler>) -> bool {
    a.len() == b.len() && forall|i: int|
        0 <= i < a.len() ==> handler_shape(&#[trigger] a[i]) == handler_shape(&b[i])
}

proof fn lemma_handlers_each(a: Seq<ExceptHandler>)
    ensures
        handler_shapes(a).len() == a.len(),
        forall|i: int| 0 <= i < a.len() ==> #[trigger] handler_shapes(a)[i] == handler_shape(&a[i]),
    decreases a.len(),
{
    if a.len() > 0 {
        lemma_handlers_each(a.drop_last());
    }
}

proof fn lemma_handlers_alike(a: Seq<ExceptHandler>, b: Seq<ExceptHandler>)
    ensures
        Shape::List(handler_shapes(a)) == Shape::List(handler_shapes(b)) <==> handlers_alike(a, b),
{
    lemma_handlers_each(a);
    lemma_handlers_each(b);
    let l = handler_shapes(a);
    let m = handler_shapes(b);
    if l == m {
        assert forall|i: int| 0 <= i < a.len() implies handler_shape(&#[trigger] a[i]) == handler_shape(&b[i]) by {
            assert(l[i] == m[i]);
        }
    }
    if handlers_alike(a, b) {
        assert(l =~= m) by {
            assert forall|i: int| 0 <= i < l.len() implies l[i] == m[i] by {
                assert(a[i] == a[i] && b[i] == b[i]);
            }
        }
    }
}

/// Whether two lists of imported names are as long, and alike one by one.
pub open spec fn aliass_alike(a: Seq<Alias>, b: Seq<Alias>) -> bool {
    a.len() == b.len() && forall|i: int|
        0 <= i < a.len() ==> alias_shape(&#[trigger] a[i]) == alias_shape(&b[i])
}

proof fn lemma_aliass_each(a: Seq<Alias>)
    ensures
        alias_shapes(a).len() == a.len(),
        forall|i: int| 0 <= i < a.len() ==> #[trigger] alias_shapes(a)[i] == alias_shape(&a[i]),
    decreases a.len(),
{
    if a.len() > 0 {
        lemma_aliass_each(a.drop_last());
    }
}

proof fn lemma_aliass_alike(a: Seq<Alias>, b: Seq<Alias>)
    ensures
        Shape::List(alias_shapes(a)) == Shape::List(alias_shapes(b)) <==> aliass_alike(a, b),
{
    lemma_aliass_each(a);
    lemma_aliass_each(b);
    let l = alias_shapes(a);
    let m = alias_shapes(b);
    if l == m {
        assert forall|i: int| 0 <= i < a.len() implies alias_shape(&#[trigger] a[i]) == alias_shape(&b[i]) by {
            assert(l[i] == m[i]);
        }
    }
    if aliass_alike(a, b) {
        assert(l =~= m) by {
            assert forall|i: int| 0 <= i < l.len() implies l[i] == m[i] by {
                assert(a[i] == a[i] && b[i] == b[i]);
            }
        }
    }
}

/// Whether two lists of context managers are as long, and alike one by one.
pub open spec fn with_items_alike(a: Seq<WithItem>, b: Seq<WithItem>) -> bool {
    a.len() == b.len() && forall|i: int|
        0 <= i < a.len() ==> with_item_shape(&#[trigger] a[i]) == with_item_shape(&b[i])
}

proof fn lemma_with_items_each(a: Seq<WithItem>)
    ensures
        with_item_shapes(a).len() == a.len(),
        forall|i: int| 0 <= i < a.len() ==> #[trigger] with_item_shapes(a)[i] == with_item_shape(&a[i]),
    decreases a.len(),
{
    if a.len() > 0 {
        lemma_with_items_each(a.drop_last());
    }
}

proof fn lemma_with_items_alike(a: Seq<WithItem>, b: Seq<WithItem>)
    ensures
        Shape::List(with_item_shapes(a)) == Shape::List(with_item_shapes(b)) <==> with_items_alike(a, b),
{
    lemma_with_items_each(a);
    lemma_with_items_each(b);
    let l = with_item_shapes(a);
    let m = with_item_shapes(b);
    if l == m {
        assert forall|i: int| 0 <= i < a.len() implies with_item_shape(&#[trigger] a[i]) == with_item_shape(&b[i]) by {
            assert(l[i] == m[i]);
        }
    }
    if with_items_alike(a, b) {
        assert(l =~= m) by {
            assert forall|i: int| 0 <= i < l.len() implies l[i] == m[i] by {
                assert(a[i] == a[i] && b[i] == b[i]);
            }
        }
    }
}

/// Whether two lists of cases are as long, and alike one by one.
pub open spec fn cases_alike(a: Seq<MatchCase>, b: Seq<MatchCase>) -> bool {
    a.len() == b.len() && forall|i: int|
        0 <= i < a.len() ==> case_shape(&#[trigger] a[i]) == case_shape(&b[i])
}

proof fn lemma_cases_each(a: Seq<MatchCase>)
    ensures
        case_shapes(a).len() == a.len(),
        forall|i: int| 0 <= i < a.len() ==> #[trigger] case_shapes(a)[i] == case_shape(&a[i]),
    decreases a.len(),
{
    if a.len() > 0 {
        lemma_cases_each(a.drop_last());
    }
}

proof fn lemma_cases_alike(a: Seq<MatchCase>, b: Seq<MatchCase>)
    ensures
        Shape::List(case_shapes(a)) == Shape::List(case_shapes(b)) <==> cases_alike(a, b),
{
    lemma_cases_each(a);
    lemma_cases_each(b);
    let l = case_shapes(a);
    let m = case_shapes(b);
    if l == m {
        assert forall|i: int| 0 <= i < a.len() implies case_shape(&#[trigger] a[i]) == case_shape(&b[i]) by {
            assert(l[i] == m[i]);
        }
    }
    if cases_alike(a, b) {
        assert(l =~= m) by {
            assert forall|i: int| 0 <= i < l.len() implies l[i] == m[i] by {
                assert(a[i] == a[i] && b[i] == b[i]);
            }
        }
    }
}

/// Whether two lists of patterns are as long, and alike one by one.
pub open spec fn patterns_alike(a: Seq<Pattern>, b: Seq<Pattern>) -> bool {
    a.len() == b.len() && forall|i: int|
        0 <= i < a.len() ==> pattern_shape(&#[trigger] a[i]) == pattern_shape(&b[i])
}

proof fn lemma_patterns_each(a: Seq<Pattern>)
    ensures
        pattern_shapes(a).len() == a.len(),
        forall|i: int| 0 <= i < a.len() ==> #[trigger] pattern_shapes(a)[i] == pattern_shape(&a[i]),
    decreases a.len(),
{
    if a.len() > 0 {
        lemma_patterns_each(a.drop_last());
    }
}

proof fn lemma_patterns_alike(a: Seq<Pattern>, b: Seq<Pattern>)
    ensures
        Shape::List(pattern_shapes(a)) == Shape::List(pattern_shapes(b)) <==> patterns_alike(a, b),
{
    lemma_patterns_each(a);
    lemma_patterns_each(b);
    let l = pattern_shapes(a);
    let m = pattern_shapes(b);
    if l == m {
        assert forall|i: int| 0 <= i < a.len() implies pattern_shape(&#[trigger] a[i]) == pattern_shape(&b[i]) by {
            assert(l[i] == m[i]);
        }
    }
    if patterns_alike(a, b) {
        assert(l =~= m) by {
            assert forall|i: int| 0 <= i < l.len() implies l[i] == m[i] by {
                assert(a[i] == a[i] && b[i] == b[i]);
            }
        }
    }
}

/// Whether two lists of type parameters are as long, and alike one by one.
pub open spec fn type_params_alike(a: Seq<TypeParam>, b: Seq<TypeParam>) -> bool {
    a.len() == b.len() && forall|i: int|
        0 <= i < a.len() ==> type_param_shape(&#[trigger] a[i]) == type_param_shape(&b[i])
}

proof fn lemma_type_params_each(a: Seq<TypeParam>)
    ensures
        type_param_shapes(a).len() == a.len(),
        forall|i: int| 0 <= i < a.len() ==> #[trigger] type_param_shapes(a)[i] == type_param_shape(&a[i]),
    decreases a.len(),
{
    if a.len() > 0 {
        lemma_type_params_each(a.drop_last());
    }
}

proof fn lemma_type_params_alike(a: Seq<TypeParam>, b: Seq<TypeParam>)
    ensures
        Shape::List(type_param_shapes(a)) == Shape::List(type_param_shapes(b)) <==> type_params_alike(a, b),
{
    lemma_type_params_each(a);
    lemma_type_params_each(b);
    let l = type_param_shapes(a);
    let m = type_param_shapes(b);
    if l == m {
        assert forall|i: int| 0 <= i < a.len() implies type_param_shape(&#[trigger] a[i]) == type_param_shape(&b[i]) by {
            assert(l[i] == m[i]);
        }
    }
    if type_params_alike(a, b) {
        assert(l =~= m) by {
            assert forall|i: int| 0 <= i < l.len() implies l[i] == m[i] by {
                assert(a[i] == a[i] && b[i] == b[i]);
            }
        }
    }
}

/// Whether two lists of names are as long, and alike one by one.
pub open spec fn names_alike(a: Seq<Identifier>, b: Seq<Identifier>) -> bool {
    a.len() == b.len() && forall|i: int|
        0 <= i < a.len() ==> identifier_text(#[trigger] a[i]) == identifier_text(b[i])
}

proof fn lemma_names_each(a: Seq<Identifier>)
    ensures
        name_shapes(a).len() == a.len(),
        forall|i: int| 0 <= i < a.len() ==> #[trigger] name_shapes(a)[i] == Shape::Word(identifier_text(a[i])),
    decreases a.len(),
{
    if a.len() > 0 {
        lemma_names_each(a.drop_last());
    }
}

proof fn lemma_names_alike(a: Seq<Identifier>, b: Seq<Identifier>)
    ensures
        Shape::List(name_shapes(a)) == Shape::List(name_shapes(b)) <==> names_alike(a, b),
{
    lemma_names_each(a);
    lemma_names_each(b);
    let l = name_shapes(a);
    let m = name_shapes(b);
    if l == m {
        assert forall|i: int| 0 <= i < a.len() implies identifier_text(#[trigger] a[i]) == identifier_text(b[i]) by {
            assert(l[i] == m[i]);
        }
    }
    if names_alike(a, b) {
        assert(l =~= m) by {
            assert forall|i: int| 0 <= i < l.len() implies l[i] == m[i] by {
                assert(a[i] == a[i] && b[i] == b[i]);
            }
        }
    }
}

/// Whether two lists of comparisons are as long, and alike one by one.
pub open spec fn comparisons_alike(a: Seq<CmpOp>, b: Seq<CmpOp>) -> bool {
    a.len() == b.len() && forall|i: int|
        0 <= i < a.len() ==> #[trigger] a[i] == b[i]
}

proof fn lemma_comparisons_each(a: Seq<CmpOp>)
    ensures
        comparison_shapes(a).len() == a.len(),
        forall|i: int| 0 <= i < a.len() ==> #[trigger] comparison_shapes(a)[i] == Shape::Word(comparison_name(a[i])),
    decreases a.len(),
{
    if a.len() > 0 {
        lemma_comparisons_each(a.drop_last());
    }
}

proof fn lemma_comparisons_alike(a: Seq<CmpOp>, b: Seq<CmpOp>)
    ensures
        Shape::List(comparison_shapes(a)) == Shape::List(comparison_shapes(b)) <==> comparisons_alike(a, b),
{
    lemma_comparisons_each(a);
    lemma_comparisons_each(b);
    let l = comparison_shapes(a);
    let m = comparison_shapes(b);
    if l == m {
        assert forall|i: int| 0 <= i < a.len() implies #[trigger] a[i] == b[i] by {
            assert(l[i] == m[i]);
            lemma_comparison_names(a[i], b[i]);
        }
    }
    if comparisons_alike(a, b) {
        assert(l =~= m) by {
            assert forall|i: int| 0 <= i < l.len() implies l[i] == m[i] by {
                assert(a[i] == a[i] && b[i] == b[i]);
            }
        }
    }
}

/// Whether two lists of bytes are as long, and alike one by one.
pub open spec fn bytes_alike(a: Seq<u8>, b: Seq<u8>) -> bool {
    a.len() == b.len() && forall|i: int|
        0 <= i < a.len() ==> #[trigger] a[i] == b[i]
}

proof fn lemma_bytes_each(a: Seq<u8>)
    ensures
        byte_shapes(a).len() == a.len(),
        forall|i: int| 0 <= i < a.len() ==> #[trigger] byte_shapes(a)[i] == Shape::Word(dec(a[i] as nat)),
    decreases a.len(),
{
    if a.len() > 0 {
        lemma_bytes_each(a.drop_last());
    }
}

proof fn lemma_bytes_alike(a: Seq<u8>, b: Seq<u8>)
    ensures
        Shape::List(byte_shapes(a)) == Shape::List(byte_shapes(b)) <==> bytes_alike(a, b),
{
    lemma_bytes_each(a);
    lemma_bytes_each(b);
    let l = byte_shapes(a);
    let m = byte_shapes(b);
    if l == m {
        assert forall|i: int| 0 <= i < a.len() implies #[trigger] a[i] == b[i] by {
            assert(l[i] == m[i]);
            law_decimals_tell_numbers_apart(a[i] as nat, b[i] as nat);
        }
    }
    if bytes_alike(a, b) {
        assert(l =~= m) by {
            assert forall|i: int| 0 <= i < l.len() implies l[i] == m[i] by {
                assert(a[i] == a[i] && b[i] == b[i]);
            }
        }
    }
}

/// Whether two lists of expressions, some of which may be absent, are as long, and alike one by
/// one.
pub open spec fn opt_expr_lists_alike(a: Seq<Option<Expr>>, b: Seq<Option<Expr>>) -> bool {
    a.len() == b.len() && forall|i: int|
        0 <= i < a.len() ==> match (#[trigger] a[i], b[i]) {
            (Some(p), Some(q)) => expr_shape(&p) == expr_shape(&q),
            (None, None) => true,
            _ => false,
        }
}

spec fn one_or_none(x: Option<Expr>) -> Shape {
    match x {
        Some(e) => Shape::List(seq![expr_shape(&e)]),
        None => Shape::List(seq![]),
    }
}

proof fn lemma_opt_exprs_each(a: Seq<Option<Expr>>)
    ensures
        opt_expr_shapes(a).len() == a.len(),
        forall|i: int| 0 <= i < a.len() ==> #[trigger] opt_expr_shapes(a)[i] == one_or_none(a[i]),
    decreases a.len(),
{
    if a.len() > 0 {
        lemma_opt_exprs_each(a.drop_last());
    }
}

proof fn lemma_opt_expr_lists_alike(a: Seq<Option<Expr>>, b: Seq<Option<Expr>>)
    ensures
        Shape::List(opt_expr_shapes(a)) == Shape::List(opt_expr_shapes(b))
            <==> opt_expr_lists_alike(a, b),
{
    lemma_opt_exprs_each(a);
    lemma_opt_exprs_each(b);
    let l = opt_expr_shapes(a);
    let m = opt_expr_shapes(b);
    if l == m {
        assert forall|i: int| 0 <= i < a.len() implies match (#[trigger] a[i], b[i]) {
            (Some(p), Some(q)) => expr_shape(&p) == expr_shape(&q),
            (None, None) => true,
            _ => false,
        } by {
            assert(l[i] == m[i]);
            lemma_one(one_or_none(a[i]), one_or_none(b[i]));
            assert(one_or_none(a[i]) == one_or_none(b[i]));
            match (a[i], b[i]) {
                (Some(p), Some(q)) => {
                    assert(one_or_none(a[i])->List_0[0] == expr_shape(&p));
                    assert(one_or_none(b[i])->List_0[0] == expr_shape(&q));
                },
                (Some(_), None) => {
                    assert(one_or_none(a[i])->List_0.len() == 1);
                    assert(one_or_none(b[i])->List_0.len() == 0);
                },
                (None, Some(_)) => {
                    assert(one_or_none(a[i])->List_0.len() == 0);
                    assert(one_or_none(b[i])->List_0.len() == 1);
                },
                (None, None) => {},
            }
        }
    }
    if opt_expr_lists_alike(a, b) {
        assert(l =~= m) by {
            assert forall|i: int| 0 <= i < l.len() implies l[i] == m[i] by {
                assert(a[i] == a[i] && b[i] == b[i]);
                lemma_one(one_or_none(a[i]), one_or_none(b[i]));
            }
        }
    }
}

/// Two clauses of comprehensions are alike exactly where all of their parts are.
pub proof fn law_comprehension_parts_are_told_apart(x: Comprehension, y: Comprehension)
    ensures
        comprehension_shape(&x) == comprehension_shape(&y) <==> expr_shape(&x.target) == expr_shape(&y.target) && expr_shape(&x.iter) == expr_shape(&y.iter) && exprs_alike(x.ifs@, y.ifs@) && x.is_async == y.is_async,
{
    let l = comprehension_shape(&x)->List_0;
    let m = comprehension_shape(&y)->List_0;
    lemma_exprs_alike(x.ifs@, y.ifs@);
    lemma_flags();
    if comprehension_shape(&x) == comprehension_shape(&y) {
        assert(l[0] == m[0]);
        assert(l[1] == m[1]);
        assert(l[2] == m[2]);
        assert(l[3] == m[3]);
    }
    if l[0] == m[0] && l[1] == m[1] && l[2] == m[2] && l[3] == m[3] {
        assert(l =~= m);
    }
}

/// Two keyword arguments are alike exactly where all of their parts are.
pub proof fn law_keyword_parts_are_told_apart(x: Keyword, y: Keyword)
    ensures
        keyword_shape(&x) == keyword_shape(&y) <==> opt_names_alike(x.arg, y.arg) && expr_shape(&x.value) == expr_shape(&y.value),
{
    let l = keyword_shape(&x)->List_0;
    let m = keyword_shape(&y)->List_0;
    lemma_opt_names_alike(x.arg, y.arg);
    if keyword_shape(&x) == keyword_shape(&y) {
        assert(l[0] == m[0]);
        assert(l[1] == m[1]);
    }
    if l[0] == m[0] && l[1] == m[1] {
        assert(l =~= m);
    }
}

/// Two parameters are alike exactly where all of their parts are.
pub proof fn law_arg_parts_are_told_apart(x: Arg, y: Arg)
    ensures
        arg_shape(&x) == arg_shape(&y) <==> identifier_text(x.arg) == identifier_text(y.arg) && opt_exprs_alike(x.annotation, y.annotation) && opt_texts_alike(x.type_comment, y.type_comment),
{
    let l = arg_shape(&x)->List_0;
    let m = arg_shape(&y)->List_0;
    lemma_opt_exprs_alike(x.annotation, y.annotation);
    lemma_opt_texts_alike(x.type_comment, y.type_comment);
    if arg_shape(&x) == arg_shape(&y) {
        assert(l[0] == m[0]);
        assert(l[1] == m[1]);
        assert(l[2] == m[2]);
    }
    if l[0] == m[0] && l[1] == m[1] && l[2] == m[2] {
        assert(l =~= m);
    }
}

/// Two parameters with their defaults are alike exactly where all of their parts are.
pub proof fn law_param_parts_are_told_apart(x: ArgWithDefault, y: ArgWithDefault)
    ensures
        param_shape(&x) == param_shape(&y) <==> arg_shape(&x.def) == arg_shape(&y.def) && opt_exprs_alike(x.default, y.default),
{
    let l = param_shape(&x)->List_0;
    let m = param_shape(&y)->List_0;
    lemma_opt_exprs_alike(x.default, y.default);
    if param_shape(&x) == param_shape(&y) {
        assert(l[0] == m[0]);
        assert(l[1] == m[1]);
    }
    if l[0] == m[0] && l[1] == m[1] {
        assert(l =~= m);
    }
}

/// Two lists of parameters are alike exactly where all of their parts are.
pub proof fn law_arguments_parts_are_told_apart(x: Arguments, y: Arguments)
    ensures
        arguments_shape(&x) == arguments_shape(&y) <==> params_alike(x.posonlyargs@, y.posonlyargs@) && params_alike(x.args@, y.args@) && opt_args_alike(x.vararg, y.vararg) && params_alike(x.kwonlyargs@, y.kwonlyargs@) && opt_args_alike(x.kwarg, y.kwarg),
{
    let l = arguments_shape(&x)->List_0;
    let m = arguments_shape(&y)->List_0;
    lemma_params_alike(x.posonlyargs@, y.posonlyargs@);
    lemma_params_alike(x.args@, y.args@);
    lemma_opt_args_alike(x.vararg, y.vararg);
    lemma_params_alike(x.kwonlyargs@, y.kwonlyargs@);
    lemma_opt_args_alike(x.kwarg, y.kwarg);
    if arguments_shape(&x) == arguments_shape(&y) {
        assert(l[0] == m[0]);
        assert(l[1] == m[1]);
        assert(l[2] == m[2]);
        assert(l[3] == m[3]);
        assert(l[4] == m[4]);
    }
    if l[0] == m[0] && l[1] == m[1] && l[2] == m[2] && l[3] == m[3] && l[4] == m[4] {
        assert(l =~= m);
    }
}

/// Two imported names are alike exactly where all of their parts are.
pub proof fn law_alias_parts_are_told_apart(x: Alias, y: Alias)
    ensures
        alias_shape(&x) == alias_shape(&y) <==> identifier_text(x.name) == identifier_text(y.name) && opt_names_alike(x.asname, y.asname),
{
    let l = alias_shape(&x)->List_0;
    let m = alias_shape(&y)->List_0;
    lemma_opt_names_alike(x.asname, y.asname);
    if alias_shape(&x) == alias_shape(&y) {
        assert(l[0] == m[0]);
        assert(l[1] == m[1]);
    }
    if l[0] == m[0] && l[1] == m[1] {
        assert(l =~= m);
    }
}

/// Two context managers are alike exactly where all of their parts are.
pub proof fn law_with_item_parts_are_told_apart(x: WithItem, y: WithItem)
    ensures
        with_item_shape(&x) == with_item_shape(&y) <==> expr_shape(&x.context_expr) == expr_shape(&y.context_expr) && opt_exprs_alike(x.optional_vars, y.optional_vars),
{
    let l = with_item_shape(&x)->List_0;
    let m = with_item_shape(&y)->List_0;
    lemma_opt_exprs_alike(x.optional_vars, y.optional_vars);
    if with_item_shape(&x) == with_item_shape(&y) {
        assert(l[0] == m[0]);
        assert(l[1] == m[1]);
    }
    if l[0] == m[0] && l[1] == m[1] {
        assert(l =~= m);
    }
}

/// Two cases are alike exactly where all of their parts are.
pub proof fn law_case_parts_are_told_apart(x: MatchCase, y: MatchCase)
    ensures
        case_shape(&x) == case_shape(&y) <==> pattern_shape(&x.pattern) == pattern_shape(&y.pattern) && opt_exprs_alike(x.guard, y.guard) && stmts_alike(x.body@, y.body@),
{
    let l = case_shape(&x)->List_0;
    let m = case_shape(&y)->List_0;
    lemma_opt_exprs_alike(x.guard, y.guard);
    lemma_stmts_alike(x.body@, y.body@);
    if case_shape(&x) == case_shape(&y) {
        assert(l[0] == m[0]);
        assert(l[1] == m[1]);
        assert(l[2] == m[2]);
    }
    if l[0] == m[0] && l[1] == m[1] && l[2] == m[2] {
        assert(l =~= m);
    }
}

/// Two exception handlers are alike exactly where all of their parts are.
pub proof fn law_handler_parts_are_told_apart(x: ExceptHandler, y: ExceptHandler)
    ensures
        handler_shape(&x) == handler_shape(&y) <==> match (x, y) {
            (ExceptHandler::ExceptHandler(a), ExceptHandler::ExceptHandler(b)) => {
                opt_exprs_alike(a.type_, b.type_) && opt_names_alike(a.name, b.name) && stmts_alike(a.body@, b.body@)
            },
        },
{
    let l = handler_shape(&x)->List_0;
    let m = handler_shape(&y)->List_0;
    match (x, y) {
        (ExceptHandler::ExceptHandler(a), ExceptHandler::ExceptHandler(b)) => {
            lemma_opt_exprs_alike(a.type_, b.type_);
            lemma_opt_names_alike(a.name, b.name);
            lemma_stmts_alike(a.body@, b.body@);
        },
    }
    if handler_shape(&x) == handler_shape(&y) {
        assert(l[0] == m[0]);
        assert(l[1] == m[1]);
        assert(l[2] == m[2]);
    }
    if l[0] == m[0] && l[1] == m[1] && l[2] == m[2] {
        assert(l =~= m);
    }
}

spec fn stmt_tag(t: Seq<char>) -> nat {
    if t == "FunctionDef"@ { 0 } else if t == "AsyncFunctionDef"@ { 1 } else if t == "ClassDef"@ { 2 } else if t == "Return"@ { 3 } else if t == "Delete"@ { 4 } else if t == "Assign"@ { 5 } else if t == "TypeAlias"@ { 6 } else if t == "AugAssign"@ { 7 } else if t == "AnnAssign"@ { 8 } else if t == "For"@ { 9 } else if t == "AsyncFor"@ { 10 } else if t == "While"@ { 11 } else if t == "If"@ { 12 } else if t == "With"@ { 13 } else if t == "AsyncWith"@ { 14 } else if t == "Match"@ { 15 } else if t == "Raise"@ { 16 } else if t == "Try"@ { 17 } else if t == "TryStar"@ { 18 } else if t == "Assert"@ { 19 } else if t == "Import"@ { 20 } else if t == "ImportFrom"@ { 21 } else if t == "Global"@ { 22 } else if t == "Nonlocal"@ { 23 } else if t == "Expr"@ { 24 } else if t == "Pass"@ { 25 } else if t == "Break"@ { 26 } else if t == "Continue"@ { 27 } else { 28 }
}

spec fn stmt_number(x: Stmt) -> nat {
    match x {
        Stmt::FunctionDef(_) => 0,
        Stmt::AsyncFunctionDef(_) => 1,
        Stmt::ClassDef(_) => 2,
        Stmt::Return(_) => 3,
        Stmt::Delete(_) => 4,
        Stmt::Assign(_) => 5,
        Stmt::TypeAlias(_) => 6,
        Stmt::AugAssign(_) => 7,
        Stmt::AnnAssign(_) => 8,
        Stmt::For(_) => 9,
        Stmt::AsyncFor(_) => 10,
        Stmt::While(_) => 11,
        Stmt::If(_) => 12,
        Stmt::With(_) => 13,
        Stmt::AsyncWith(_) => 14,
        Stmt::Match(_) => 15,
        Stmt::Raise(_) => 16,
        Stmt::Try(_) => 17,
        Stmt::TryStar(_) => 18,
        Stmt::Assert(_) => 19,
        Stmt::Import(_) => 20,
        Stmt::ImportFrom(_) => 21,
        Stmt::Global(_) => 22,
        Stmt::Nonlocal(_) => 23,
        Stmt::Expr(_) => 24,
        Stmt::Pass(_) => 25,
        Stmt::Break(_) => 26,
        Stmt::Continue(_) => 27,
    }
}

proof fn lemma_stmt_tags()
    ensures
        stmt_tag("FunctionDef"@) == 0,
        stmt_tag("AsyncFunctionDef"@) == 1,
        stmt_tag("ClassDef"@) == 2,
        stmt_tag("Return"@) == 3,
        stmt_tag("Delete"@) == 4,
        stmt_tag("Assign"@) == 5,
        stmt_tag("TypeAlias"@) == 6,
        stmt_tag("AugAssign"@) == 7,
        stmt_tag("AnnAssign"@) == 8,
        stmt_tag("For"@) == 9,
        stmt_tag("AsyncFor"@) == 10,
        stmt_tag("While"@) == 11,
        stmt_tag("If"@) == 12,
        stmt_tag("With"@) == 13,
        stmt_tag("AsyncWith"@) == 14,
        stmt_tag("Match"@) == 15,
        stmt_tag("Raise"@) == 16,
        stmt_tag("Try"@) == 17,
        stmt_tag("TryStar"@) == 18,
        stmt_tag("Assert"@) == 19,
        stmt_tag("Import"@) == 20,
        stmt_tag("ImportFrom"@) == 21,
        stmt_tag("Global"@) == 22,
        stmt_tag("Nonlocal"@) == 23,
        stmt_tag("Expr"@) == 24,
        stmt_tag("Pass"@) == 25,
        stmt_tag("Break"@) == 26,
        stmt_tag("Continue"@) == 27,
{
    reveal_strlit("FunctionDef");
    assert("FunctionDef"@.len() == 11);
    reveal_strlit("AsyncFunctionDef");
    assert("AsyncFunctionDef"@.len() == 16);
    reveal_strlit("ClassDef");
    assert("ClassDef"@.len() == 8);
    reveal_strlit("Return");
    assert("Return"@.len() == 6);
    reveal_strlit("Delete");
    assert("Delete"@.len() == 6);
    reveal_strlit("Assign");
    assert("Assign"@.len() == 6);
    reveal_strlit("TypeAlias");
    assert("TypeAlias"@.len() == 9);
    reveal_strlit("AugAssign");
    assert("AugAssign"@.len() == 9);
    reveal_strlit("AnnAssign");
    assert("AnnAssign"@.len() == 9);
    reveal_strlit("For");
    assert("For"@.len() == 3);
    reveal_strlit("AsyncFor");
    assert("AsyncFor"@.len() == 8);
    reveal_strlit("While");
    assert("While"@.len() == 5);
    reveal_strlit("If");
    assert("If"@.len() == 2);
    reveal_strlit("With");
    assert("With"@.len() == 4);
    reveal_strlit("AsyncWith");
    assert("AsyncWith"@.len() == 9);
    reveal_strlit("Match");
    assert("Match"@.len() == 5);
    reveal_strlit("Raise");
    assert("Raise"@.len() == 5);
    reveal_strlit("Try");
    assert("Try"@.len() == 3);
    reveal_strlit("TryStar");
    assert("TryStar"@.len() == 7);
    reveal_strlit("Assert");
    assert("Assert"@.len() == 6);
    reveal_strlit("Import");
    assert("Import"@.len() == 6);
    reveal_strlit("ImportFrom");
    assert("ImportFrom"@.len() == 10);
    reveal_strlit("Global");
    assert("Global"@.len() == 6);
    reveal_strlit("Nonlocal");
    assert("Nonlocal"@.len() == 8);
    reveal_strlit("Expr");
    assert("Expr"@.len() == 4);
    reveal_strlit("Pass");
    assert("Pass"@.len() == 4);
    reveal_strlit("Break");
    assert("Break"@.len() == 5);
    reveal_strlit("Continue");
    assert("Continue"@.len() == 8);
    assert("ClassDef"@[0] != "AsyncFor"@[0]);
    assert("ClassDef"@[0] != "Nonlocal"@[0]);
    assert("ClassDef"@[1] != "Continue"@[1]);
    assert("Return"@[0] != "Delete"@[0]);
    assert("Return"@[0] != "Assign"@[0]);
    assert("Return"@[0] != "Assert"@[0]);
    assert("Return"@[0] != "Import"@[0]);
    assert("Return"@[0] != "Global"@[0]);
    assert("Delete"@[0] != "Assign"@[0]);
    assert("Delete"@[0] != "Assert"@[0]);
    assert("Delete"@[0] != "Import"@[0]);
    assert("Delete"@[0] != "Global"@[0]);
    assert("Assign"@[3] != "Assert"@[3]);
    assert("Assign"@[0] != "Import"@[0]);
    assert("Assign"@[0] != "Global"@[0]);
    assert("TypeAlias"@[0] != "AugAssign"@[0]);
    assert("TypeAlias"@[0] != "AnnAssign"@[0]);
    assert("TypeAlias"@[0] != "AsyncWith"@[0]);
    assert("AugAssign"@[1] != "AnnAssign"@[1]);
    assert("AugAssign"@[1] != "AsyncWith"@[1]);
    assert("AnnAssign"@[1] != "AsyncWith"@[1]);
    assert("For"@[0] != "Try"@[0]);
    assert("AsyncFor"@[0] != "Nonlocal"@[0]);
    assert("AsyncFor"@[0] != "Continue"@[0]);
    assert("While"@[0] != "Match"@[0]);
    assert("While"@[0] != "Raise"@[0]);
    assert("While"@[0] != "Break"@[0]);
    assert("With"@[0] != "Expr"@[0]);
    assert("With"@[0] != "Pass"@[0]);
    assert("Match"@[0] != "Raise"@[0]);
    assert("Match"@[0] != "Break"@[0]);
    assert("Raise"@[0] != "Break"@[0]);
    assert("Assert"@[0] != "Import"@[0]);
    assert("Assert"@[0] != "Global"@[0]);
    assert("Import"@[0] != "Global"@[0]);
    assert("Nonlocal"@[0] != "Continue"@[0]);
    assert("Expr"@[0] != "Pass"@[0]);
}

proof fn lemma_stmt_tag(x: &Stmt)
    ensures
        stmt_shape(x) is List,
        stmt_shape(x)->List_0.len() > 0,
        stmt_shape(x)->List_0[0] is Word,
        stmt_tag(stmt_shape(x)->List_0[0]->Word_0) == stmt_number(*x),
{
    lemma_stmt_tags();
}

proof fn lemma_stmt_functiondef(x: &Stmt, y: &Stmt)
    ensures
        match (x, y) {
            (Stmt::FunctionDef(a), Stmt::FunctionDef(b)) => stmt_shape(x) == stmt_shape(y) <==> (identifier_text(a.name) == identifier_text(b.name) && arguments_shape(&a.args) == arguments_shape(&b.args) && stmts_alike(a.body@, b.body@) && exprs_alike(a.decorator_list@, b.decorator_list@) && opt_exprs_alike(a.returns, b.returns) && opt_texts_alike(a.type_comment, b.type_comment) && type_params_alike(a.type_params@, b.type_params@)),
            _ => true,
        },
{
    let l = stmt_shape(x)->List_0;
    let m = stmt_shape(y)->List_0;
    match (x, y) {
        (Stmt::FunctionDef(a), Stmt::FunctionDef(b)) => {
            lemma_stmts_alike(a.body@, b.body@);
            lemma_exprs_alike(a.decorator_list@, b.decorator_list@);
            lemma_opt_exprs_alike(a.returns, b.returns);
            lemma_opt_texts_alike(a.type_comment, b.type_comment);
            lemma_type_params_alike(a.type_params@, b.type_params@);
            if stmt_shape(x) == stmt_shape(y) {
                assert(l[1] == m[1]);
                assert(l[2] == m[2]);
                assert(l[3] == m[3]);
                assert(l[4] == m[4]);
                assert(l[5] == m[5]);
                assert(l[6] == m[6]);
                assert(l[7] == m[7]);
            }
            if l[1] == m[1] && l[2] == m[2] && l[3] == m[3] && l[4] == m[4] && l[5] == m[5] && l[6] == m[6] && l[7] == m[7] {
                assert(l =~= m);
            }
        },
        _ => {},
    }
}

proof fn lemma_stmt_asyncfunctiondef(x: &Stmt, y: &Stmt)
    ensures
        match (x, y) {
            (Stmt::AsyncFunctionDef(a), Stmt::AsyncFunctionDef(b)) => stmt_shape(x) == stmt_shape(y) <==> (identifier_text(a.name) == identifier_text(b.name) && arguments_shape(&a.args) == arguments_shape(&b.args) && stmts_alike(a.body@, b.body@) && exprs_alike(a.decorator_list@, b.decorator_list@) && opt_exprs_alike(a.returns, b.returns) && opt_texts_alike(a.type_comment, b.type_comment) && type_params_alike(a.type_params@, b.type_params@)),
            _ => true,
        },
{
    let l = stmt_shape(x)->List_0;
    let m = stmt_shape(y)->List_0;
    match (x, y) {
        (Stmt::AsyncFunctionDef(a), Stmt::AsyncFunctionDef(b)) => {
            lemma_stmts_alike(a.body@, b.body@);
            lemma_exprs_alike(a.decorator_list@, b.decorator_list@);
            lemma_opt_exprs_alike(a.returns, b.returns);
            lemma_opt_texts_alike(a.type_comment, b.type_comment);
            lemma_type_params_alike(a.type_params@, b.type_params@);
            if stmt_shape(x) == stmt_shape(y) {
                assert(l[1] == m[1]);
                assert(l[2] == m[2]);
                assert(l[3] == m[3]);
                assert(l[4] == m[4]);
                assert(l[5] == m[5]);
                assert(l[6] == m[6]);
                assert(l[7] == m[7]);
            }
            if l[1] == m[1] && l[2] == m[2] && l[3] == m[3] && l[4] == m[4] && l[5] == m[5] && l[6] == m[6] && l[7] == m[7] {
                assert(l =~= m);
            }
        },
        _ => {},
    }
}

proof fn lemma_stmt_classdef(x: &Stmt, y: &Stmt)
    ensures
        match (x, y) {
            (Stmt::ClassDef(a), Stmt::ClassDef(b)) => stmt_shape(x) == stmt_shape(y) <==> (identifier_text(a.name) == identifier_text(b.name) && exprs_alike(a.bases@, b.bases@) && keywords_alike(a.keywords@, b.keywords@) && stmts_alike(a.body@, b.body@) && exprs_alike(a.decorator_list@, b.decorator_list@) && type_params_alike(a.type_params@, b.type_params@)),
            _ => true,
        },
{
    let l = stmt_shape(x)->List_0;
    let m = stmt_shape(y)->List_0;
    match (x, y) {
        (Stmt::ClassDef(a), Stmt::ClassDef(b)) => {
            lemma_exprs_alike(a.bases@, b.bases@);
            lemma_keywords_alike(a.keywords@, b.keywords@);
            lemma_stmts_alike(a.body@, b.body@);
            lemma_exprs_alike(a.decorator_list@, b.decorator_list@);
            lemma_type_params_alike(a.type_params@, b.type_params@);
            if stmt_shape(x) == stmt_shape(y) {
                assert(l[1] == m[1]);
                assert(l[2] == m[2]);
                assert(l[3] == m[3]);
                assert(l[4] == m[4]);
                assert(l[5] == m[5]);
                assert(l[6] == m[6]);
            }
            if l[1] == m[1] && l[2] == m[2] && l[3] == m[3] && l[4] == m[4] && l[5] == m[5] && l[6] == m[6] {
                assert(l =~= m);
            }
        },
        _ => {},
    }
}

proof fn lemma_stmt_return(x: &Stmt, y: &Stmt)
    ensures
        match (x, y) {
            (Stmt::Return(a), Stmt::Return(b)) => stmt_shape(x) == stmt_shape(y) <==> (opt_exprs_alike(a.value, b.value)),
            _ => true,
        },
{
    let l = stmt_shape(x)->List_0;
    let m = stmt_shape(y)->List_0;
    match (x, y) {
        (Stmt::Return(a), Stmt::Return(b)) => {
            lemma_opt_exprs_alike(a.value, b.value);
            if stmt_shape(x) == stmt_shape(y) {
                assert(l[1] == m[1]);
            }
            if l[1] == m[1] {
                assert(l =~= m);
            }
        },
        _ => {},
    }
}

proof fn lemma_stmt_delete(x: &Stmt, y: &Stmt)
    ensures
        match (x, y) {
            (Stmt::Delete(a), Stmt::Delete(b)) => stmt_shape(x) == stmt_shape(y) <==> (exprs_alike(a.targets@, b.targets@)),
            _ => true,
        },
{
    let l = stmt_shape(x)->List_0;
    let m = stmt_shape(y)->List_0;
    match (x, y) {
        (Stmt::Delete(a), Stmt::Delete(b)) => {
            lemma_exprs_alike(a.targets@, b.targets@);
            if stmt_shape(x) == stmt_shape(y) {
                assert(l[1] == m[1]);
            }
            if l[1] == m[1] {
                assert(l =~= m);
            }
        },
        _ => {},
    }
}

proof fn lemma_stmt_assign(x: &Stmt, y: &Stmt)
    ensures
        match (x, y) {
            (Stmt::Assign(a), Stmt::Assign(b)) => stmt_shape(x) == stmt_shape(y) <==> (exprs_alike(a.targets@, b.targets@) && expr_shape(&a.value) == expr_shape(&b.value) && opt_texts_alike(a.type_comment, b.type_comment)),
            _ => true,
        },
{
    let l = stmt_shape(x)->List_0;
    let m = stmt_shape(y)->List_0;
    match (x, y) {
        (Stmt::Assign(a), Stmt::Assign(b)) => {
            lemma_exprs_alike(a.targets@, b.targets@);
            lemma_opt_texts_alike(a.type_comment, b.type_comment);
            if stmt_shape(x) == stmt_shape(y) {
                assert(l[1] == m[1]);
                assert(l[2] == m[2]);
                assert(l[3] == m[3]);
            }
            if l[1] == m[1] && l[2] == m[2] && l[3] == m[3] {
                assert(l =~= m);
            }
        },
        _ => {},
    }
}

proof fn lemma_stmt_typealias(x: &Stmt, y: &Stmt)
    ensures
        match (x, y) {
            (Stmt::TypeAlias(a), Stmt::TypeAlias(b)) => stmt_shape(x) == stmt_shape(y) <==> (expr_shape(&a.name) == expr_shape(&b.name) && type_params_alike(a.type_params@, b.type_params@) && expr_shape(&a.value) == expr_shape(&b.value)),
            _ => true,
        },
{
    let l = stmt_shape(x)->List_0;
    let m = stmt_shape(y)->List_0;
    match (x, y) {
        (Stmt::TypeAlias(a), Stmt::TypeAlias(b)) => {
            lemma_type_params_alike(a.type_params@, b.type_params@);
            if stmt_shape(x) == stmt_shape(y) {
                assert(l[1] == m[1]);
                assert(l[2] == m[2]);
                assert(l[3] == m[3]);
            }
            if l[1] == m[1] && l[2] == m[2] && l[3] == m[3] {
                assert(l =~= m);
            }
        },
        _ => {},
    }
}

proof fn lemma_stmt_augassign(x: &Stmt, y: &Stmt)
    ensures
        match (x, y) {
            (Stmt::AugAssign(a), Stmt::AugAssign(b)) => stmt_shape(x) == stmt_shape(y) <==> (expr_shape(&a.target) == expr_shape(&b.target) && a.op == b.op && expr_shape(&a.value) == expr_shape(&b.value)),
            _ => true,
        },
{
    let l = stmt_shape(x)->List_0;
    let m = stmt_shape(y)->List_0;
    match (x, y) {
        (Stmt::AugAssign(a), Stmt::AugAssign(b)) => {
            lemma_operator_names(a.op, b.op);
            if stmt_shape(x) == stmt_shape(y) {
                assert(l[1] == m[1]);
                assert(l[2] == m[2]);
                assert(l[3] == m[3]);
            }
            if l[1] == m[1] && l[2] == m[2] && l[3] == m[3] {
                assert(l =~= m);
            }
        },
        _ => {},
    }
}

proof fn lemma_stmt_annassign(x: &Stmt, y: &Stmt)
    ensures
        match (x, y) {
            (Stmt::AnnAssign(a), Stmt::AnnAssign(b)) => stmt_shape(x) == stmt_shape(y) <==> (expr_shape(&a.target) == expr_shape(&b.target) && expr_shape(&a.annotation) == expr_shape(&b.annotation) && opt_exprs_alike(a.value, b.value) && a.simple == b.simple),
            _ => true,
        },
{
    let l = stmt_shape(x)->List_0;
    let m = stmt_shape(y)->List_0;
    match (x, y) {
        (Stmt::AnnAssign(a), Stmt::AnnAssign(b)) => {
            lemma_opt_exprs_alike(a.value, b.value);
            lemma_flags();
            if stmt_shape(x) == stmt_shape(y) {
                assert(l[1] == m[1]);
                assert(l[2] == m[2]);
                assert(l[3] == m[3]);
                assert(l[4] == m[4]);
            }
            if l[1] == m[1] && l[2] == m[2] && l[3] == m[3] && l[4] == m[4] {
                assert(l =~= m);
            }
        },
        _ => {},
    }
}

proof fn lemma_stmt_for(x: &Stmt, y: &Stmt)
    ensures
        match (x, y) {
            (Stmt::For(a), Stmt::For(b)) => stmt_shape(x) == stmt_shape(y) <==> (expr_shape(&a.target) == expr_shape(&b.target) && expr_shape(&a.iter) == expr_shape(&b.iter) && stmts_alike(a.body@, b.body@) && stmts_alike(a.orelse@, b.orelse@) && opt_texts_alike(a.type_comment, b.type_comment)),
            _ => true,
        },
{
    let l = stmt_shape(x)->List_0;
    let m = stmt_shape(y)->List_0;
    match (x, y) {
        (Stmt::For(a), Stmt::For(b)) => {
            lemma_stmts_alike(a.body@, b.body@);
            lemma_stmts_alike(a.orelse@, b.orelse@);
            lemma_opt_texts_alike(a.type_comment, b.type_comment);
            if stmt_shape(x) == stmt_shape(y) {
                assert(l[1] == m[1]);
                assert(l[2] == m[2]);
                assert(l[3] == m[3]);
                assert(l[4] == m[4]);
                assert(l[5] == m[5]);
            }
            if l[1] == m[1] && l[2] == m[2] && l[3] == m[3] && l[4] == m[4] && l[5] == m[5] {
                assert(l =~= m);
            }
        },
        _ => {},
    }
}

proof fn lemma_stmt_asyncfor(x: &Stmt, y: &Stmt)
    ensures
        match (x, y) {
            (Stmt::AsyncFor(a), Stmt::AsyncFor(b)) => stmt_shape(x) == stmt_shape(y) <==> (expr_shape(&a.target) == expr_shape(&b.target) && expr_shape(&a.iter) == expr_shape(&b.iter) && stmts_alike(a.body@, b.body@) && stmts_alike(a.orelse@, b.orelse@) && opt_texts_alike(a.type_comment, b.type_comment)),
            _ => true,
        },
{
    let l = stmt_shape(x)->List_0;
    let m = stmt_shape(y)->List_0;
    match (x, y) {
        (Stmt::AsyncFor(a), Stmt::AsyncFor(b)) => {
            lemma_stmts_alike(a.body@, b.body@);
            lemma_stmts_alike(a.orelse@, b.orelse@);
            lemma_opt_texts_alike(a.type_comment, b.type_comment);
            if stmt_shape(x) == stmt_shape(y) {
                assert(l[1] == m[1]);
                assert(l[2] == m[2]);
                assert(l[3] == m[3]);
                assert(l[4] == m[4]);
                assert(l[5] == m[5]);
            }
            if l[1] == m[1] && l[2] == m[2] && l[3] == m[3] && l[4] == m[4] && l[5] == m[5] {
                assert(l =~= m);
            }
        },
        _ => {},
    }
}

proof fn lemma_stmt_while(x: &Stmt, y: &Stmt)
    ensures
        match (x, y) {
            (Stmt::While(a), Stmt::While(b)) => stmt_shape(x) == stmt_shape(y) <==> (expr_shape(&a.test) == expr_shape(&b.test) && stmts_alike(a.body@, b.body@) && stmts_alike(a.orelse@, b.orelse@)),
            _ => true,
        },
{
    let l = stmt_shape(x)->List_0;
    let m = stmt_shape(y)->List_0;
    match (x, y) {
        (Stmt::While(a), Stmt::While(b)) => {
            lemma_stmts_alike(a.body@, b.body@);
            lemma_stmts_alike(a.orelse@, b.orelse@);
            if stmt_shape(x) == stmt_shape(y) {
                assert(l[1] == m[1]);
                assert(l[2] == m[2]);
                assert(l[3] == m[3]);
            }
            if l[1] == m[1] && l[2] == m[2] && l[3] == m[3] {
                assert(l =~= m);
            }
        },
        _ => {},
    }
}

proof fn lemma_stmt_if(x: &Stmt, y: &Stmt)
    ensures
        match (x, y) {
            (Stmt::If(a), Stmt::If(b)) => stmt_shape(x) == stmt_shape(y) <==> (expr_shape(&a.test) == expr_shape(&b.test) && stmts_alike(a.body@, b.body@) && stmts_alike(a.orelse@, b.orelse@)),
            _ => true,
        },
{
    let l = stmt_shape(x)->List_0;
    let m = stmt_shape(y)->List_0;
    match (x, y) {
        (Stmt::If(a), Stmt::If(b)) => {
            lemma_stmts_alike(a.body@, b.body@);
            lemma_stmts_alike(a.orelse@, b.orelse@);
            if stmt_shape(x) == stmt_shape(y) {
                assert(l[1] == m[1]);
                assert(l[2] == m[2]);
                assert(l[3] == m[3]);
            }
            if l[1] == m[1] && l[2] == m[2] && l[3] == m[3] {
                assert(l =~= m);
            }
        },
        _ => {},
    }
}

proof fn lemma_stmt_with(x: &Stmt, y: &Stmt)
    ensures
        match (x, y) {
            (Stmt::With(a), Stmt::With(b)) => stmt_shape(x) == stmt_shape(y) <==> (with_items_alike(a.items@, b.items@) && stmts_alike(a.body@, b.body@) && opt_texts_alike(a.type_comment, b.type_comment)),
            _ => true,
        },
{
    let l = stmt_shape(x)->List_0;
    let m = stmt_shape(y)->List_0;
    match (x, y) {
        (Stmt::With(a), Stmt::With(b)) => {
            lemma_with_items_alike(a.items@, b.items@);
            lemma_stmts_alike(a.body@, b.body@);
            lemma_opt_texts_alike(a.type_comment, b.type_comment);
            if stmt_shape(x) == stmt_shape(y) {
                assert(l[1] == m[1]);
                assert(l[2] == m[2]);
                assert(l[3] == m[3]);
            }
            if l[1] == m[1] && l[2] == m[2] && l[3] == m[3] {
                assert(l =~= m);
            }
        },
        _ => {},
    }
}

proof fn lemma_stmt_asyncwith(x: &Stmt, y: &Stmt)
    ensures
        match (x, y) {
            (Stmt::AsyncWith(a), Stmt::AsyncWith(b)) => stmt_shape(x) == stmt_shape(y) <==> (with_items_alike(a.items@, b.items@) && stmts_alike(a.body@, b.body@) && opt_texts_alike(a.type_comment, b.type_comment)),
            _ => true,
        },
{
    let l = stmt_shape(x)->List_0;
    let m = stmt_shape(y)->List_0;
    match (x, y) {
        (Stmt::AsyncWith(a), Stmt::AsyncWith(b)) => {
            lemma_with_items_alike(a.items@, b.items@);
            lemma_stmts_alike(a.body@, b.body@);
            lemma_opt_texts_alike(a.type_comment, b.type_comment);
            if stmt_shape(x) == stmt_shape(y) {
                assert(l[1] == m[1]);
                assert(l[2] == m[2]);
                assert(l[3] == m[3]);
            }
            if l[1] == m[1] && l[2] == m[2] && l[3] == m[3] {
                assert(l =~= m);
            }
        },
        _ => {},
    }
}

proof fn lemma_stmt_match(x: &Stmt, y: &Stmt)
    ensures
        match (x, y) {
            (Stmt::Match(a), Stmt::Match(b)) => stmt_shape(x) == stmt_shape(y) <==> (expr_shape(&a.subject) == expr_shape(&b.subject) && cases_alike(a.cases@, b.cases@)),
            _ => true,
        },
{
    let l = stmt_shape(x)->List_0;
    let m = stmt_shape(y)->List_0;
    match (x, y) {
        (Stmt::Match(a), Stmt::Match(b)) => {
            lemma_cases_alike(a.cases@, b.cases@);
            if stmt_shape(x) == stmt_shape(y) {
                assert(l[1] == m[1]);
                assert(l[2] == m[2]);
            }
            if l[1] == m[1] && l[2] == m[2] {
                assert(l =~= m);
            }
        },
        _ => {},
    }
}

proof fn lemma_stmt_raise(x: &Stmt, y: &Stmt)
    ensures
        match (x, y) {
            (Stmt::Raise(a), Stmt::Raise(b)) => stmt_shape(x) == stmt_shape(y) <==> (opt_exprs_alike(a.exc, b.exc) && opt_exprs_alike(a.cause, b.cause)),
            _ => true,
        },
{
    let l = stmt_shape(x)->List_0;
    let m = stmt_shape(y)->List_0;
    match (x, y) {
        (Stmt::Raise(a), Stmt::Raise(b)) => {
            lemma_opt_exprs_alike(a.exc, b.exc);
            lemma_opt_exprs_alike(a.cause, b.cause);
            if stmt_shape(x) == stmt_shape(y) {
                assert(l[1] == m[1]);
                assert(l[2] == m[2]);
            }
            if l[1] == m[1] && l[2] == m[2] {
                assert(l =~= m);
            }
        },
        _ => {},
    }
}

proof fn lemma_stmt_try(x: &Stmt, y: &Stmt)
    ensures
        match (x, y) {
            (Stmt::Try(a), Stmt::Try(b)) => stmt_shape(x) == stmt_shape(y) <==> (stmts_alike(a.body@, b.body@) && handlers_alike(a.handlers@, b.handlers@) && stmts_alike(a.orelse@, b.orelse@) && stmts_alike(a.finalbody@, b.finalbody@)),
            _ => true,
        },
{
    let l = stmt_shape(x)->List_0;
    let m = stmt_shape(y)->List_0;
    match (x, y) {
        (Stmt::Try(a), Stmt::Try(b)) => {
            lemma_stmts_alike(a.body@, b.body@);
            lemma_handlers_alike(a.handlers@, b.handlers@);
            lemma_stmts_alike(a.orelse@, b.orelse@);
            lemma_stmts_alike(a.finalbody@, b.finalbody@);
            if stmt_shape(x) == stmt_shape(y) {
                assert(l[1] == m[1]);
                assert(l[2] == m[2]);
                assert(l[3] == m[3]);
                assert(l[4] == m[4]);
            }
            if l[1] == m[1] && l[2] == m[2] && l[3] == m[3] && l[4] == m[4] {
                assert(l =~= m);
            }
        },
        _ => {},
    }
}

proof fn lemma_stmt_trystar(x: &Stmt, y: &Stmt)
    ensures
        match (x, y) {
            (Stmt::TryStar(a), Stmt::TryStar(b)) => stmt_shape(x) == stmt_shape(y) <==> (stmts_alike(a.body@, b.body@) && handlers_alike(a.handlers@, b.handlers@) && stmts_alike(a.orelse@, b.orelse@) && stmts_alike(a.finalbody@, b.finalbody@)),
            _ => true,
        },
{
    let l = stmt_shape(x)->List_0;
    let m = stmt_shape(y)->List_0;
    match (x, y) {
        (Stmt::TryStar(a), Stmt::TryStar(b)) => {
            lemma_stmts_alike(a.body@, b.body@);
            lemma_handlers_alike(a.handlers@, b.handlers@);
            lemma_stmts_alike(a.orelse@, b.orelse@);
            lemma_stmts_alike(a.finalbody@, b.finalbody@);
            if stmt_shape(x) == stmt_shape(y) {
                assert(l[1] == m[1]);
                assert(l[2] == m[2]);
                assert(l[3] == m[3]);
                assert(l[4] == m[4]);
            }
            if l[1] == m[1] && l[2] == m[2] && l[3] == m[3] && l[4] == m[4] {
                assert(l =~= m);
            }
        },
        _ => {},
    }
}

proof fn lemma_stmt_assert(x: &Stmt, y: &Stmt)
    ensures
        match (x, y) {
            (Stmt::Assert(a), Stmt::Assert(b)) => stmt_shape(x) == stmt_shape(y) <==> (expr_shape(&a.test) == expr_shape(&b.test) && opt_exprs_alike(a.msg, b.msg)),
            _ => true,
        },
{
    let l = stmt_shape(x)->List_0;
    let m = stmt_shape(y)->List_0;
    match (x, y) {
        (Stmt::Assert(a), Stmt::Assert(b)) => {
            lemma_opt_exprs_alike(a.msg, b.msg);
            if stmt_shape(x) == stmt_shape(y) {
                assert(l[1] == m[1]);
                assert(l[2] == m[2]);
            }
            if l[1] == m[1] && l[2] == m[2] {
                assert(l =~= m);
            }
        },
        _ => {},
    }
}

proof fn lemma_stmt_import(x: &Stmt, y: &Stmt)
    ensures
        match (x, y) {
            (Stmt::Import(a), Stmt::Import(b)) => stmt_shape(x) == stmt_shape(y) <==> (aliass_alike(a.names@, b.names@)),
            _ => true,
        },
{
    let l = stmt_shape(x)->List_0;
    let m = stmt_shape(y)->List_0;
    match (x, y) {
        (Stmt::Import(a), Stmt::Import(b)) => {
            lemma_aliass_alike(a.names@, b.names@);
            if stmt_shape(x) == stmt_shape(y) {
                assert(l[1] == m[1]);
            }
            if l[1] == m[1] {
                assert(l =~= m);
            }
        },
        _ => {},
    }
}

proof fn lemma_stmt_importfrom(x: &Stmt, y: &Stmt)
    ensures
        match (x, y) {
            (Stmt::ImportFrom(a), Stmt::ImportFrom(b)) => stmt_shape(x) == stmt_shape(y) <==> (opt_names_alike(a.module, b.module) && aliass_alike(a.names@, b.names@) && opt_ints_alike(a.level, b.level)),
            _ => true,
        },
{
    let l = stmt_shape(x)->List_0;
    let m = stmt_shape(y)->List_0;
    match (x, y) {
        (Stmt::ImportFrom(a), Stmt::ImportFrom(b)) => {
            lemma_opt_names_alike(a.module, b.module);
            lemma_aliass_alike(a.names@, b.names@);
            lemma_opt_ints_alike(a.level, b.level);
            if stmt_shape(x) == stmt_shape(y) {
                assert(l[1] == m[1]);
                assert(l[2] == m[2]);
                assert(l[3] == m[3]);
            }
            if l[1] == m[1] && l[2] == m[2] && l[3] == m[3] {
                assert(l =~= m);
            }
        },
        _ => {},
    }
}

proof fn lemma_stmt_global(x: &Stmt, y: &Stmt)
    ensures
        match (x, y) {
            (Stmt::Global(a), Stmt::Global(b)) => stmt_shape(x) == stmt_shape(y) <==> (names_alike(a.names@, b.names@)),
            _ => true,
        },
{
    let l = stmt_shape(x)->List_0;
    let m = stmt_shape(y)->List_0;
    match (x, y) {
        (Stmt::Global(a), Stmt::Global(b)) => {
            lemma_names_alike(a.names@, b.names@);
            if stmt_shape(x) == stmt_shape(y) {
                assert(l[1] == m[1]);
            }
            if l[1] == m[1] {
                assert(l =~= m);
            }
        },
        _ => {},
    }
}

proof fn lemma_stmt_nonlocal(x: &Stmt, y: &Stmt)
    ensures
        match (x, y) {
            (Stmt::Nonlocal(a), Stmt::Nonlocal(b)) => stmt_shape(x) == stmt_shape(y) <==> (names_alike(a.names@, b.names@)),
            _ => true,
        },
{
    let l = stmt_shape(x)->List_0;
    let m = stmt_shape(y)->List_0;
    match (x, y) {
        (Stmt::Nonlocal(a), Stmt::Nonlocal(b)) => {
            lemma_names_alike(a.names@, b.names@);
            if stmt_shape(x) == stmt_shape(y) {
                assert(l[1] == m[1]);
            }
            if l[1] == m[1] {
                assert(l =~= m);
            }
        },
        _ => {},
    }
}

proof fn lemma_stmt_expr(x: &Stmt, y: &Stmt)
    ensures
        match (x, y) {
            (Stmt::Expr(a), Stmt::Expr(b)) => stmt_shape(x) == stmt_shape(y) <==> (expr_shape(&a.value) == expr_shape(&b.value)),
            _ => true,
        },
{
    let l = stmt_shape(x)->List_0;
    let m = stmt_shape(y)->List_0;
    match (x, y) {
        (Stmt::Expr(a), Stmt::Expr(b)) => {
            if stmt_shape(x) == stmt_shape(y) {
                assert(l[1] == m[1]);
            }
            if l[1] == m[1] {
                assert(l =~= m);
            }
        },
        _ => {},
    }
}

/// Two statements are alike exactly where they are of the same kind and all of their parts are
/// alike; where they stand does not matter.
pub proof fn law_stmt_parts_are_told_apart(x: &Stmt, y: &Stmt)
    ensures
        stmt_shape(x) == stmt_shape(y) <==> match (x, y) {
            (Stmt::FunctionDef(a), Stmt::FunctionDef(b)) => { identifier_text(a.name) == identifier_text(b.name) && arguments_shape(&a.args) == arguments_shape(&b.args) && stmts_alike(a.body@, b.body@) && exprs_alike(a.decorator_list@, b.decorator_list@) && opt_exprs_alike(a.returns, b.returns) && opt_texts_alike(a.type_comment, b.type_comment) && type_params_alike(a.type_params@, b.type_params@) },
            (Stmt::AsyncFunctionDef(a), Stmt::AsyncFunctionDef(b)) => { identifier_text(a.name) == identifier_text(b.name) && arguments_shape(&a.args) == arguments_shape(&b.args) && stmts_alike(a.body@, b.body@) && exprs_alike(a.decorator_list@, b.decorator_list@) && opt_exprs_alike(a.returns, b.returns) && opt_texts_alike(a.type_comment, b.type_comment) && type_params_alike(a.type_params@, b.type_params@) },
            (Stmt::ClassDef(a), Stmt::ClassDef(b)) => { identifier_text(a.name) == identifier_text(b.name) && exprs_alike(a.bases@, b.bases@) && keywords_alike(a.keywords@, b.keywords@) && stmts_alike(a.body@, b.body@) && exprs_alike(a.decorator_list@, b.decorator_list@) && type_params_alike(a.type_params@, b.type_params@) },
            (Stmt::Return(a), Stmt::Return(b)) => { opt_exprs_alike(a.value, b.value) },
            (Stmt::Delete(a), Stmt::Delete(b)) => { exprs_alike(a.targets@, b.targets@) },
            (Stmt::Assign(a), Stmt::Assign(b)) => { exprs_alike(a.targets@, b.targets@) && expr_shape(&a.value) == expr_shape(&b.value) && opt_texts_alike(a.type_comment, b.type_comment) },
            (Stmt::TypeAlias(a), Stmt::TypeAlias(b)) => { expr_shape(&a.name) == expr_shape(&b.name) && type_params_alike(a.type_params@, b.type_params@) && expr_shape(&a.value) == expr_shape(&b.value) },
            (Stmt::AugAssign(a), Stmt::AugAssign(b)) => { expr_shape(&a.target) == expr_shape(&b.target) && a.op == b.op && expr_shape(&a.value) == expr_shape(&b.value) },
            (Stmt::AnnAssign(a), Stmt::AnnAssign(b)) => { expr_shape(&a.target) == expr_shape(&b.target) && expr_shape(&a.annotation) == expr_shape(&b.annotation) && opt_exprs_alike(a.value, b.value) && a.simple == b.simple },
            (Stmt::For(a), Stmt::For(b)) => { expr_shape(&a.target) == expr_shape(&b.target) && expr_shape(&a.iter) == expr_shape(&b.iter) && stmts_alike(a.body@, b.body@) && stmts_alike(a.orelse@, b.orelse@) && opt_texts_alike(a.type_comment, b.type_comment) },
            (Stmt::AsyncFor(a), Stmt::AsyncFor(b)) => { expr_shape(&a.target) == expr_shape(&b.target) && expr_shape(&a.iter) == expr_shape(&b.iter) && stmts_alike(a.body@, b.body@) && stmts_alike(a.orelse@, b.orelse@) && opt_texts_alike(a.type_comment, b.type_comment) },
            (Stmt::While(a), Stmt::While(b)) => { expr_shape(&a.test) == expr_shape(&b.test) && stmts_alike(a.body@, b.body@) && stmts_alike(a.orelse@, b.orelse@) },
            (Stmt::If(a), Stmt::If(b)) => { expr_shape(&a.test) == expr_shape(&b.test) && stmts_alike(a.body@, b.body@) && stmts_alike(a.orelse@, b.orelse@) },
            (Stmt::With(a), Stmt::With(b)) => { with_items_alike(a.items@, b.items@) && stmts_alike(a.body@, b.body@) && opt_texts_alike(a.type_comment, b.type_comment) },
            (Stmt::AsyncWith(a), Stmt::AsyncWith(b)) => { with_items_alike(a.items@, b.items@) && stmts_alike(a.body@, b.body@) && opt_texts_alike(a.type_comment, b.type_comment) },
            (Stmt::Match(a), Stmt::Match(b)) => { expr_shape(&a.subject) == expr_shape(&b.subject) && cases_alike(a.cases@, b.cases@) },
            (Stmt::Raise(a), Stmt::Raise(b)) => { opt_exprs_alike(a.exc, b.exc) && opt_exprs_alike(a.cause, b.cause) },
            (Stmt::Try(a), Stmt::Try(b)) => { stmts_alike(a.body@, b.body@) && handlers_alike(a.handlers@, b.handlers@) && stmts_alike(a.orelse@, b.orelse@) && stmts_alike(a.finalbody@, b.finalbody@) },
            (Stmt::TryStar(a), Stmt::TryStar(b)) => { stmts_alike(a.body@, b.body@) && handlers_alike(a.handlers@, b.handlers@) && stmts_alike(a.orelse@, b.orelse@) && stmts_alike(a.finalbody@, b.finalbody@) },
            (Stmt::Assert(a), Stmt::Assert(b)) => { expr_shape(&a.test) == expr_shape(&b.test) && opt_exprs_alike(a.msg, b.msg) },
            (Stmt::Import(a), Stmt::Import(b)) => { aliass_alike(a.names@, b.names@) },
            (Stmt::ImportFrom(a), Stmt::ImportFrom(b)) => { opt_names_alike(a.module, b.module) && aliass_alike(a.names@, b.names@) && opt_ints_alike(a.level, b.level) },
            (Stmt::Global(a), Stmt::Global(b)) => { names_alike(a.names@, b.names@) },
            (Stmt::Nonlocal(a), Stmt::Nonlocal(b)) => { names_alike(a.names@, b.names@) },
            (Stmt::Expr(a), Stmt::Expr(b)) => { expr_shape(&a.value) == expr_shape(&b.value) },
            (Stmt::Pass(_), Stmt::Pass(_)) => true,
            (Stmt::Break(_), Stmt::Break(_)) => true,
            (Stmt::Continue(_), Stmt::Continue(_)) => true,
            _ => false,
        },
{
    lemma_stmt_tag(x);
    lemma_stmt_tag(y);
    match (x, y) {
        (Stmt::FunctionDef(_), Stmt::FunctionDef(_)) => { lemma_stmt_functiondef(x, y); },
        (Stmt::AsyncFunctionDef(_), Stmt::AsyncFunctionDef(_)) => { lemma_stmt_asyncfunctiondef(x, y); },
        (Stmt::ClassDef(_), Stmt::ClassDef(_)) => { lemma_stmt_classdef(x, y); },
        (Stmt::Return(_), Stmt::Return(_)) => { lemma_stmt_return(x, y); },
        (Stmt::Delete(_), Stmt::Delete(_)) => { lemma_stmt_delete(x, y); },
        (Stmt::Assign(_), Stmt::Assign(_)) => { lemma_stmt_assign(x, y); },
        (Stmt::TypeAlias(_), Stmt::TypeAlias(_)) => { lemma_stmt_typealias(x, y); },
        (Stmt::AugAssign(_), Stmt::AugAssign(_)) => { lemma_stmt_augassign(x, y); },
        (Stmt::AnnAssign(_), Stmt::AnnAssign(_)) => { lemma_stmt_annassign(x, y); },
        (Stmt::For(_), Stmt::For(_)) => { lemma_stmt_for(x, y); },
        (Stmt::AsyncFor(_), Stmt::AsyncFor(_)) => { lemma_stmt_asyncfor(x, y); },
        (Stmt::While(_), Stmt::While(_)) => { lemma_stmt_while(x, y); },
        (Stmt::If(_), Stmt::If(_)) => { lemma_stmt_if(x, y); },
        (Stmt::With(_), Stmt::With(_)) => { lemma_stmt_with(x, y); },
        (Stmt::AsyncWith(_), Stmt::AsyncWith(_)) => { lemma_stmt_asyncwith(x, y); },
        (Stmt::Match(_), Stmt::Match(_)) => { lemma_stmt_match(x, y); },
        (Stmt::Raise(_), Stmt::Raise(_)) => { lemma_stmt_raise(x, y); },
        (Stmt::Try(_), Stmt::Try(_)) => { lemma_stmt_try(x, y); },
        (Stmt::TryStar(_), Stmt::TryStar(_)) => { lemma_stmt_trystar(x, y); },
        (Stmt::Assert(_), Stmt::Assert(_)) => { lemma_stmt_assert(x, y); },
        (Stmt::Import(_), Stmt::Import(_)) => { lemma_stmt_import(x, y); },
        (Stmt::ImportFrom(_), Stmt::ImportFrom(_)) => { lemma_stmt_importfrom(x, y); },
        (Stmt::Global(_), Stmt::Global(_)) => { lemma_stmt_global(x, y); },
        (Stmt::Nonlocal(_), Stmt::Nonlocal(_)) => { lemma_stmt_nonlocal(x, y); },
        (Stmt::Expr(_), Stmt::Expr(_)) => { lemma_stmt_expr(x, y); },
        (Stmt::Pass(_), Stmt::Pass(_)) => {  },
        (Stmt::Break(_), Stmt::Break(_)) => {  },
        (Stmt::Continue(_), Stmt::Continue(_)) => {  },
        _ => {
            assert(stmt_number(*x) != stmt_number(*y));
        },
    }
}

spec fn expr_tag(t: Seq<char>) -> nat {
    if t == "BoolOp"@ { 0 } else if t == "NamedExpr"@ { 1 } else if t == "BinOp"@ { 2 } else if t == "UnaryOp"@ { 3 } else if t == "Lambda"@ { 4 } else if t == "IfExp"@ { 5 } else if t == "Dict"@ { 6 } else if t == "Set"@ { 7 } else if t == "ListComp"@ { 8 } else if t == "SetComp"@ { 9 } else if t == "DictComp"@ { 10 } else if t == "GeneratorExp"@ { 11 } else if t == "Await"@ { 12 } else if t == "Yield"@ { 13 } else if t == "YieldFrom"@ { 14 } else if t == "Compare"@ { 15 } else if t == "Call"@ { 16 } else if t == "FormattedValue"@ { 17 } else if t == "JoinedStr"@ { 18 } else if t == "Constant"@ { 19 } else if t == "Attribute"@ { 20 } else if t == "Subscript"@ { 21 } else if t == "Starred"@ { 22 } else if t == "Name"@ { 23 } else if t == "List"@ { 24 } else if t == "Tuple"@ { 25 } else if t == "Slice"@ { 26 } else { 27 }
}

spec fn expr_number(x: Expr) -> nat {
    match x {
        Expr::BoolOp(_) => 0,
        Expr::NamedExpr(_) => 1,
        Expr::BinOp(_) => 2,
        Expr::UnaryOp(_) => 3,
        Expr::Lambda(_) => 4,
        Expr::IfExp(_) => 5,
        Expr::Dict(_) => 6,
        Expr::Set(_) => 7,
        Expr::ListComp(_) => 8,
        Expr::SetComp(_) => 9,
        Expr::DictComp(_) => 10,
        Expr::GeneratorExp(_) => 11,
        Expr::Await(_) => 12,
        Expr::Yield(_) => 13,
        Expr::YieldFrom(_) => 14,
        Expr::Compare(_) => 15,
        Expr::Call(_) => 16,
        Expr::FormattedValue(_) => 17,
        Expr::JoinedStr(_) => 18,
        Expr::Constant(_) => 19,
        Expr::Attribute(_) => 20,
        Expr::Subscript(_) => 21,
        Expr::Starred(_) => 22,
        Expr::Name(_) => 23,
        Expr::List(_) => 24,
        Expr::Tuple(_) => 25,
        Expr::Slice(_) => 26,
    }
}

proof fn lemma_expr_tags()
    ensures
        expr_tag("BoolOp"@) == 0,
        expr_tag("NamedExpr"@) == 1,
        expr_tag("BinOp"@) == 2,
        expr_tag("UnaryOp"@) == 3,
        expr_tag("Lambda"@) == 4,
        expr_tag("IfExp"@) == 5,
        expr_tag("Dict"@) == 6,
        expr_tag("Set"@) == 7,
        expr_tag("ListComp"@) == 8,
        expr_tag("SetComp"@) == 9,
        expr_tag("DictComp"@) == 10,
        expr_tag("GeneratorExp"@) == 11,
        expr_tag("Await"@) == 12,
        expr_tag("Yield"@) == 13,
        expr_tag("YieldFrom"@) == 14,
        expr_tag("Compare"@) == 15,
        expr_tag("Call"@) == 16,
        expr_tag("FormattedValue"@) == 17,
        expr_tag("JoinedStr"@) == 18,
        expr_tag("Constant"@) == 19,
        expr_tag("Attribute"@) == 20,
        expr_tag("Subscript"@) == 21,
        expr_tag("Starred"@) == 22,
        expr_tag("Name"@) == 23,
        expr_tag("List"@) == 24,
        expr_tag("Tuple"@) == 25,
        expr_tag("Slice"@) == 26,
{
    reveal_strlit("BoolOp");
    assert("BoolOp"@.len() == 6);
    reveal_strlit("NamedExpr");
    assert("NamedExpr"@.len() == 9);
    reveal_strlit("BinOp");
    assert("BinOp"@.len() == 5);
    reveal_strlit("UnaryOp");
    assert("UnaryOp"@.len() == 7);
    reveal_strlit("Lambda");
    assert("Lambda"@.len() == 6);
    reveal_strlit("IfExp");
    assert("IfExp"@.len() == 5);
    reveal_strlit("Dict");
    assert("Dict"@.len() == 4);
    reveal_strlit("Set");
    assert("Set"@.len() == 3);
    reveal_strlit("ListComp");
    assert("ListComp"@.len() == 8);
    reveal_strlit("SetComp");
    assert("SetComp"@.len() == 7);
    reveal_strlit("DictComp");
    assert("DictComp"@.len() == 8);
    reveal_strlit("GeneratorExp");
    assert("GeneratorExp"@.len() == 12);
    reveal_strlit("Await");
    assert("Await"@.len() == 5);
    reveal_strlit("Yield");
    assert("Yield"@.len() == 5);
    reveal_strlit("YieldFrom");
    assert("YieldFrom"@.len() == 9);
    reveal_strlit("Compare");
    assert("Compare"@.len() == 7);
    reveal_strlit("Call");
    assert("Call"@.len() == 4);
    reveal_strlit("FormattedValue");
    assert("FormattedValue"@.len() == 14);
    reveal_strlit("JoinedStr");
    assert("JoinedStr"@.len() == 9);
    reveal_strlit("Constant");
    assert("Constant"@.len() == 8);
    reveal_strlit("Attribute");
    assert("Attribute"@.len() == 9);
    reveal_strlit("Subscript");
    assert("Subscript"@.len() == 9);
    reveal_strlit("Starred");
    assert("Starred"@.len() == 7);
    reveal_strlit("Name");
    assert("Name"@.len() == 4);
    reveal_strlit("List");
    assert("List"@.len() == 4);
    reveal_strlit("Tuple");
    assert("Tuple"@.len() == 5);
    reveal_strlit("Slice");
    assert("Slice"@.len() == 5);
    assert("BoolOp"@[0] != "Lambda"@[0]);
    assert("NamedExpr"@[0] != "YieldFrom"@[0]);
    assert("NamedExpr"@[0] != "JoinedStr"@[0]);
    assert("NamedExpr"@[0] != "Attribute"@[0]);
    assert("NamedExpr"@[0] != "Subscript"@[0]);
    assert("BinOp"@[0] != "IfExp"@[0]);
    assert("BinOp"@[0] != "Await"@[0]);
    assert("BinOp"@[0] != "Yield"@[0]);
    assert("BinOp"@[0] != "Tuple"@[0]);
    assert("BinOp"@[0] != "Slice"@[0]);
    assert("UnaryOp"@[0] != "SetComp"@[0]);
    assert("UnaryOp"@[0] != "Compare"@[0]);
    assert("UnaryOp"@[0] != "Starred"@[0]);
    assert("IfExp"@[0] != "Await"@[0]);
    assert("IfExp"@[0] != "Yield"@[0]);
    assert("IfExp"@[0] != "Tuple"@[0]);
    assert("IfExp"@[0] != "Slice"@[0]);
    assert("Dict"@[0] != "Call"@[0]);
    assert("Dict"@[0] != "Name"@[0]);
    assert("Dict"@[0] != "List"@[0]);
    assert("ListComp"@[0] != "DictComp"@[0]);
    assert("ListComp"@[0] != "Constant"@[0]);
    assert("SetComp"@[0] != "Compare"@[0]);
    assert("SetComp"@[1] != "Starred"@[1]);
    assert("DictComp"@[0] != "Constant"@[0]);
    assert("Await"@[0] != "Yield"@[0]);
    assert("Await"@[0] != "Tuple"@[0]);
    assert("Await"@[0] != "Slice"@[0]);
    assert("Yield"@[0] != "Tuple"@[0]);
    assert("Yield"@[0] != "Slice"@[0]);
    assert("YieldFrom"@[0] != "JoinedStr"@[0]);
    assert("YieldFrom"@[0] != "Attribute"@[0]);
    assert("YieldFrom"@[0] != "Subscript"@[0]);
    assert("Compare"@[0] != "Starred"@[0]);
    assert("Call"@[0] != "Name"@[0]);
    assert("Call"@[0] != "List"@[0]);
    assert("JoinedStr"@[0] != "Attribute"@[0]);
    assert("JoinedStr"@[0] != "Subscript"@[0]);
    assert("Attribute"@[0] != "Subscript"@[0]);
    assert("Name"@[0] != "List"@[0]);
    assert("Tuple"@[0] != "Slice"@[0]);
}

proof fn lemma_expr_tag(x: &Expr)
    ensures
        expr_shape(x) is List,
        expr_shape(x)->List_0.len() > 0,
        expr_shape(x)->List_0[0] is Word,
        expr_tag(expr_shape(x)->List_0[0]->Word_0) == expr_number(*x),
{
    lemma_expr_tags();
}

proof fn lemma_expr_boolop(x: &Expr, y: &Expr)
    ensures
        match (x, y) {
            (Expr::BoolOp(a), Expr::BoolOp(b)) => expr_shape(x) == expr_shape(y) <==> (a.op == b.op && exprs_alike(a.values@, b.values@)),
            _ => true,
        },
{
    let l = expr_shape(x)->List_0;
    let m = expr_shape(y)->List_0;
    match (x, y) {
        (Expr::BoolOp(a), Expr::BoolOp(b)) => {
            lemma_bool_op_names(a.op, b.op);
            lemma_exprs_alike(a.values@, b.values@);
            if expr_shape(x) == expr_shape(y) {
                assert(l[1] == m[1]);
                assert(l[2] == m[2]);
            }
            if l[1] == m[1] && l[2] == m[2] {
                assert(l =~= m);
            }
        },
        _ => {},
    }
}

proof fn lemma_expr_namedexpr(x: &Expr, y: &Expr)
    ensures
        match (x, y) {
            (Expr::NamedExpr(a), Expr::NamedExpr(b)) => expr_shape(x) == expr_shape(y) <==> (expr_shape(&a.target) == expr_shape(&b.target) && expr_shape(&a.value) == expr_shape(&b.value)),
            _ => true,
        },
{
    let l = expr_shape(x)->List_0;
    let m = expr_shape(y)->List_0;
    match (x, y) {
        (Expr::NamedExpr(a), Expr::NamedExpr(b)) => {
            if expr_shape(x) == expr_shape(y) {
                assert(l[1] == m[1]);
                assert(l[2] == m[2]);
            }
            if l[1] == m[1] && l[2] == m[2] {
                assert(l =~= m);
            }
        },
        _ => {},
    }
}

proof fn lemma_expr_binop(x: &Expr, y: &Expr)
    ensures
        match (x, y) {
            (Expr::BinOp(a), Expr::BinOp(b)) => expr_shape(x) == expr_shape(y) <==> (expr_shape(&a.left) == expr_shape(&b.left) && a.op == b.op && expr_shape(&a.right) == expr_shape(&b.right)),
            _ => true,
        },
{
    let l = expr_shape(x)->List_0;
    let m = expr_shape(y)->List_0;
    match (x, y) {
        (Expr::BinOp(a), Expr::BinOp(b)) => {
            lemma_operator_names(a.op, b.op);
            if expr_shape(x) == expr_shape(y) {
                assert(l[1] == m[1]);
                assert(l[2] == m[2]);
                assert(l[3] == m[3]);
            }
            if l[1] == m[1] && l[2] == m[2] && l[3] == m[3] {
                assert(l =~= m);
            }
        },
        _ => {},
    }
}

proof fn lemma_expr_unaryop(x: &Expr, y: &Expr)
    ensures
        match (x, y) {
            (Expr::UnaryOp(a), Expr::UnaryOp(b)) => expr_shape(x) == expr_shape(y) <==> (a.op == b.op && expr_shape(&a.operand) == expr_shape(&b.operand)),
            _ => true,
        },
{
    let l = expr_shape(x)->List_0;
    let m = expr_shape(y)->List_0;
    match (x, y) {
        (Expr::UnaryOp(a), Expr::UnaryOp(b)) => {
            lemma_unary_op_names(a.op, b.op);
            if expr_shape(x) == expr_shape(y) {
                assert(l[1] == m[1]);
                assert(l[2] == m[2]);
            }
            if l[1] == m[1] && l[2] == m[2] {
                assert(l =~= m);
            }
        },
        _ => {},
    }
}

proof fn lemma_expr_lambda(x: &Expr, y: &Expr)
    ensures
        match (x, y) {
            (Expr::Lambda(a), Expr::Lambda(b)) => expr_shape(x) == expr_shape(y) <==> (arguments_shape(&a.args) == arguments_shape(&b.args) && expr_shape(&a.body) == expr_shape(&b.body)),
            _ => true,
        },
{
    let l = expr_shape(x)->List_0;
    let m = expr_shape(y)->List_0;
    match (x, y) {
        (Expr::Lambda(a), Expr::Lambda(b)) => {
            if expr_shape(x) == expr_shape(y) {
                assert(l[1] == m[1]);
                assert(l[2] == m[2]);
            }
            if l[1] == m[1] && l[2] == m[2] {
                assert(l =~= m);
            }
        },
        _ => {},
    }
}

proof fn lemma_expr_ifexp(x: &Expr, y: &Expr)
    ensures
        match (x, y) {
            (Expr::IfExp(a), Expr::IfExp(b)) => expr_shape(x) == expr_shape(y) <==> (expr_shape(&a.test) == expr_shape(&b.test) && expr_shape(&a.body) == expr_shape(&b.body) && expr_shape(&a.orelse) == expr_shape(&b.orelse)),
            _ => true,
        },
{
    let l = expr_shape(x)->List_0;
    let m = expr_shape(y)->List_0;
    match (x, y) {
        (Expr::IfExp(a), Expr::IfExp(b)) => {
            if expr_shape(x) == expr_shape(y) {
                assert(l[1] == m[1]);
                assert(l[2] == m[2]);
                assert(l[3] == m[3]);
            }
            if l[1] == m[1] && l[2] == m[2] && l[3] == m[3] {
                assert(l =~= m);
            }
        },
        _ => {},
    }
}

proof fn lemma_expr_dict(x: &Expr, y: &Expr)
    ensures
        match (x, y) {
            (Expr::Dict(a), Expr::Dict(b)) => expr_shape(x) == expr_shape(y) <==> (opt_expr_lists_alike(a.keys@, b.keys@) && exprs_alike(a.values@, b.values@)),
            _ => true,
        },
{
    let l = expr_shape(x)->List_0;
    let m = expr_shape(y)->List_0;
    match (x, y) {
        (Expr::Dict(a), Expr::Dict(b)) => {
            lemma_opt_expr_lists_alike(a.keys@, b.keys@);
            lemma_exprs_alike(a.values@, b.values@);
            if expr_shape(x) == expr_shape(y) {
                assert(l[1] == m[1]);
                assert(l[2] == m[2]);
            }
            if l[1] == m[1] && l[2] == m[2] {
                assert(l =~= m);
            }
        },
        _ => {},
    }
}

proof fn lemma_expr_set(x: &Expr, y: &Expr)
    ensures
        match (x, y) {
            (Expr::Set(a), Expr::Set(b)) => expr_shape(x) == expr_shape(y) <==> (exprs_alike(a.elts@, b.elts@)),
            _ => true,
        },
{
    let l = expr_shape(x)->List_0;
    let m = expr_shape(y)->List_0;
    match (x, y) {
        (Expr::Set(a), Expr::Set(b)) => {
            lemma_exprs_alike(a.elts@, b.elts@);
            if expr_shape(x) == expr_shape(y) {
                assert(l[1] == m[1]);
            }
            if l[1] == m[1] {
                assert(l =~= m);
            }
        },
        _ => {},
    }
}

proof fn lemma_expr_listcomp(x: &Expr, y: &Expr)
    ensures
        match (x, y) {
            (Expr::ListComp(a), Expr::ListComp(b)) => expr_shape(x) == expr_shape(y) <==> (expr_shape(&a.elt) == expr_shape(&b.elt) && comprehensions_alike(a.generators@, b.generators@)),
            _ => true,
        },
{
    let l = expr_shape(x)->List_0;
    let m = expr_shape(y)->List_0;
    match (x, y) {
        (Expr::ListComp(a), Expr::ListComp(b)) => {
            lemma_comprehensions_alike(a.generators@, b.generators@);
            if expr_shape(x) == expr_shape(y) {
                assert(l[1] == m[1]);
                assert(l[2] == m[2]);
            }
            if l[1] == m[1] && l[2] == m[2] {
                assert(l =~= m);
            }
        },
        _ => {},
    }
}

proof fn lemma_expr_setcomp(x: &Expr, y: &Expr)
    ensures
        match (x, y) {
            (Expr::SetComp(a), Expr::SetComp(b)) => expr_shape(x) == expr_shape(y) <==> (expr_shape(&a.elt) == expr_shape(&b.elt) && comprehensions_alike(a.generators@, b.generators@)),
            _ => true,
        },
{
    let l = expr_shape(x)->List_0;
    let m = expr_shape(y)->List_0;
    match (x, y) {
        (Expr::SetComp(a), Expr::SetComp(b)) => {
            lemma_comprehensions_alike(a.generators@, b.generators@);
            if expr_shape(x) == expr_shape(y) {
                assert(l[1] == m[1]);
                assert(l[2] == m[2]);
            }
            if l[1] == m[1] && l[2] == m[2] {
                assert(l =~= m);
            }
        },
        _ => {},
    }
}

proof fn lemma_expr_dictcomp(x: &Expr, y: &Expr)
    ensures
        match (x, y) {
            (Expr::DictComp(a), Expr::DictComp(b)) => expr_shape(x) == expr_shape(y) <==> (expr_shape(&a.key) == expr_shape(&b.key) && expr_shape(&a.value) == expr_shape(&b.value) && comprehensions_alike(a.generators@, b.generators@)),
            _ => true,
        },
{
    let l = expr_shape(x)->List_0;
    let m = expr_shape(y)->List_0;
    match (x, y) {
        (Expr::DictComp(a), Expr::DictComp(b)) => {
            lemma_comprehensions_alike(a.generators@, b.generators@);
            if expr_shape(x) == expr_shape(y) {
                assert(l[1] == m[1]);
                assert(l[2] == m[2]);
                assert(l[3] == m[3]);
            }
            if l[1] == m[1] && l[2] == m[2] && l[3] == m[3] {
                assert(l =~= m);
            }
        },
        _ => {},
    }
}

proof fn lemma_expr_generatorexp(x: &Expr, y: &Expr)
    ensures
        match (x, y) {
            (Expr::GeneratorExp(a), Expr::GeneratorExp(b)) => expr_shape(x) == expr_shape(y) <==> (expr_shape(&a.elt) == expr_shape(&b.elt) && comprehensions_alike(a.generators@, b.generators@)),
            _ => true,
        },
{
    let l = expr_shape(x)->List_0;
    let m = expr_shape(y)->List_0;
    match (x, y) {
        (Expr::GeneratorExp(a), Expr::GeneratorExp(b)) => {
            lemma_comprehensions_alike(a.generators@, b.generators@);
            if expr_shape(x) == expr_shape(y) {
                assert(l[1] == m[1]);
                assert(l[2] == m[2]);
            }
            if l[1] == m[1] && l[2] == m[2] {
                assert(l =~= m);
            }
        },
        _ => {},
    }
}

proof fn lemma_expr_await(x: &Expr, y: &Expr)
    ensures
        match (x, y) {
            (Expr::Await(a), Expr::Await(b)) => expr_shape(x) == expr_shape(y) <==> (expr_shape(&a.value) == expr_shape(&b.value)),
            _ => true,
        },
{
    let l = expr_shape(x)->List_0;
    let m = expr_shape(y)->List_0;
    match (x, y) {
        (Expr::Await(a), Expr::Await(b)) => {
            if expr_shape(x) == expr_shape(y) {
                assert(l[1] == m[1]);
            }
            if l[1] == m[1] {
                assert(l =~= m);
            }
        },
        _ => {},
    }
}

proof fn lemma_expr_yield(x: &Expr, y: &Expr)
    ensures
        match (x, y) {
            (Expr::Yield(a), Expr::Yield(b)) => expr_shape(x) == expr_shape(y) <==> (opt_exprs_alike(a.value, b.value)),
            _ => true,
        },
{
    let l = expr_shape(x)->List_0;
    let m = expr_shape(y)->List_0;
    match (x, y) {
        (Expr::Yield(a), Expr::Yield(b)) => {
            lemma_opt_exprs_alike(a.value, b.value);
            if expr_shape(x) == expr_shape(y) {
                assert(l[1] == m[1]);
            }
            if l[1] == m[1] {
                assert(l =~= m);
            }
        },
        _ => {},
    }
}

proof fn lemma_expr_yieldfrom(x: &Expr, y: &Expr)
    ensures
        match (x, y) {
            (Expr::YieldFrom(a), Expr::YieldFrom(b)) => expr_shape(x) == expr_shape(y) <==> (expr_shape(&a.value) == expr_shape(&b.value)),
            _ => true,
        },
{
    let l = expr_shape(x)->List_0;
    let m = expr_shape(y)->List_0;
    match (x, y) {
        (Expr::YieldFrom(a), Expr::YieldFrom(b)) => {
            if expr_shape(x) == expr_shape(y) {
                assert(l[1] == m[1]);
            }
            if l[1] == m[1] {
                assert(l =~= m);
            }
        },
        _ => {},
    }
}

proof fn lemma_expr_compare(x: &Expr, y: &Expr)
    ensures
        match (x, y) {
            (Expr::Compare(a), Expr::Compare(b)) => expr_shape(x) == expr_shape(y) <==> (expr_shape(&a.left) == expr_shape(&b.left) && comparisons_alike(a.ops@, b.ops@) && exprs_alike(a.comparators@, b.comparators@)),
            _ => true,
        },
{
    let l = expr_shape(x)->List_0;
    let m = expr_shape(y)->List_0;
    match (x, y) {
        (Expr::Compare(a), Expr::Compare(b)) => {
            lemma_comparisons_alike(a.ops@, b.ops@);
            lemma_exprs_alike(a.comparators@, b.comparators@);
            if expr_shape(x) == expr_shape(y) {
                assert(l[1] == m[1]);
                assert(l[2] == m[2]);
                assert(l[3] == m[3]);
            }
            if l[1] == m[1] && l[2] == m[2] && l[3] == m[3] {
                assert(l =~= m);
            }
        },
        _ => {},
    }
}

proof fn lemma_expr_call(x: &Expr, y: &Expr)
    ensures
        match (x, y) {
            (Expr::Call(a), Expr::Call(b)) => expr_shape(x) == expr_shape(y) <==> (expr_shape(&a.func) == expr_shape(&b.func) && exprs_alike(a.args@, b.args@) && keywords_alike(a.keywords@, b.keywords@)),
            _ => true,
        },
{
    let l = expr_shape(x)->List_0;
    let m = expr_shape(y)->List_0;
    match (x, y) {
        (Expr::Call(a), Expr::Call(b)) => {
            lemma_exprs_alike(a.args@, b.args@);
            lemma_keywords_alike(a.keywords@, b.keywords@);
            if expr_shape(x) == expr_shape(y) {
                assert(l[1] == m[1]);
                assert(l[2] == m[2]);
                assert(l[3] == m[3]);
            }
            if l[1] == m[1] && l[2] == m[2] && l[3] == m[3] {
                assert(l =~= m);
            }
        },
        _ => {},
    }
}

proof fn lemma_expr_formattedvalue(x: &Expr, y: &Expr)
    ensures
        match (x, y) {
            (Expr::FormattedValue(a), Expr::FormattedValue(b)) => expr_shape(x) == expr_shape(y) <==> (expr_shape(&a.value) == expr_shape(&b.value) && a.conversion == b.conversion && opt_exprs_alike(a.format_spec, b.format_spec)),
            _ => true,
        },
{
    let l = expr_shape(x)->List_0;
    let m = expr_shape(y)->List_0;
    match (x, y) {
        (Expr::FormattedValue(a), Expr::FormattedValue(b)) => {
            lemma_conversion_names(a.conversion, b.conversion);
            lemma_opt_exprs_alike(a.format_spec, b.format_spec);
            if expr_shape(x) == expr_shape(y) {
                assert(l[1] == m[1]);
                assert(l[2] == m[2]);
                assert(l[3] == m[3]);
            }
            if l[1] == m[1] && l[2] == m[2] && l[3] == m[3] {
                assert(l =~= m);
            }
        },
        _ => {},
    }
}

proof fn lemma_expr_joinedstr(x: &Expr, y: &Expr)
    ensures
        match (x, y) {
            (Expr::JoinedStr(a), Expr::JoinedStr(b)) => expr_shape(x) == expr_shape(y) <==> (exprs_alike(a.values@, b.values@)),
            _ => true,
        },
{
    let l = expr_shape(x)->List_0;
    let m = expr_shape(y)->List_0;
    match (x, y) {
        (Expr::JoinedStr(a), Expr::JoinedStr(b)) => {
            lemma_exprs_alike(a.values@, b.values@);
            if expr_shape(x) == expr_shape(y) {
                assert(l[1] == m[1]);
            }
            if l[1] == m[1] {
                assert(l =~= m);
            }
        },
        _ => {},
    }
}

proof fn lemma_expr_constant(x: &Expr, y: &Expr)
    ensures
        match (x, y) {
            (Expr::Constant(a), Expr::Constant(b)) => expr_shape(x) == expr_shape(y) <==> (constant_shape(&a.value) == constant_shape(&b.value) && opt_texts_alike(a.kind, b.kind)),
            _ => true,
        },
{
    let l = expr_shape(x)->List_0;
    let m = expr_shape(y)->List_0;
    match (x, y) {
        (Expr::Constant(a), Expr::Constant(b)) => {
            lemma_opt_texts_alike(a.kind, b.kind);
            if expr_shape(x) == expr_shape(y) {
                assert(l[1] == m[1]);
                assert(l[2] == m[2]);
            }
            if l[1] == m[1] && l[2] == m[2] {
                assert(l =~= m);
            }
        },
        _ => {},
    }
}

proof fn lemma_expr_attribute(x: &Expr, y: &Expr)
    ensures
        match (x, y) {
            (Expr::Attribute(a), Expr::Attribute(b)) => expr_shape(x) == expr_shape(y) <==> (expr_shape(&a.value) == expr_shape(&b.value) && identifier_text(a.attr) == identifier_text(b.attr) && a.ctx == b.ctx),
            _ => true,
        },
{
    let l = expr_shape(x)->List_0;
    let m = expr_shape(y)->List_0;
    match (x, y) {
        (Expr::Attribute(a), Expr::Attribute(b)) => {
            lemma_context_names(a.ctx, b.ctx);
            if expr_shape(x) == expr_shape(y) {
                assert(l[1] == m[1]);
                assert(l[2] == m[2]);
                assert(l[3] == m[3]);
            }
            if l[1] == m[1] && l[2] == m[2] && l[3] == m[3] {
                assert(l =~= m);
            }
        },
        _ => {},
    }
}

proof fn lemma_expr_subscript(x: &Expr, y: &Expr)
    ensures
        match (x, y) {
            (Expr::Subscript(a), Expr::Subscript(b)) => expr_shape(x) == expr_shape(y) <==> (expr_shape(&a.value) == expr_shape(&b.value) && expr_shape(&a.slice) == expr_shape(&b.slice) && a.ctx == b.ctx),
            _ => true,
        },
{
    let l = expr_shape(x)->List_0;
    let m = expr_shape(y)->List_0;
    match (x, y) {
        (Expr::Subscript(a), Expr::Subscript(b)) => {
            lemma_context_names(a.ctx, b.ctx);
            if expr_shape(x) == expr_shape(y) {
                assert(l[1] == m[1]);
                assert(l[2] == m[2]);
                assert(l[3] == m[3]);
            }
            if l[1] == m[1] && l[2] == m[2] && l[3] == m[3] {
                assert(l =~= m);
            }
        },
        _ => {},
    }
}

proof fn lemma_expr_starred(x: &Expr, y: &Expr)
    ensures
        match (x, y) {
            (Expr::Starred(a), Expr::Starred(b)) => expr_shape(x) == expr_shape(y) <==> (expr_shape(&a.value) == expr_shape(&b.value) && a.ctx == b.ctx),
            _ => true,
        },
{
    let l = expr_shape(x)->List_0;
    let m = expr_shape(y)->List_0;
    match (x, y) {
        (Expr::Starred(a), Expr::Starred(b)) => {
            lemma_context_names(a.ctx, b.ctx);
            if expr_shape(x) == expr_shape(y) {
                assert(l[1] == m[1]);
                assert(l[2] == m[2]);
            }
            if l[1] == m[1] && l[2] == m[2] {
                assert(l =~= m);
            }
        },
        _ => {},
    }
}

proof fn lemma_expr_name(x: &Expr, y: &Expr)
    ensures
        match (x, y) {
            (Expr::Name(a), Expr::Name(b)) => expr_shape(x) == expr_shape(y) <==> (identifier_text(a.id) == identifier_text(b.id) && a.ctx == b.ctx),
            _ => true,
        },
{
    let l = expr_shape(x)->List_0;
    let m = expr_shape(y)->List_0;
    match (x, y) {
        (Expr::Name(a), Expr::Name(b)) => {
            lemma_context_names(a.ctx, b.ctx);
            if expr_shape(x) == expr_shape(y) {
                assert(l[1] == m[1]);
                assert(l[2] == m[2]);
            }
            if l[1] == m[1] && l[2] == m[2] {
                assert(l =~= m);
            }
        },
        _ => {},
    }
}

proof fn lemma_expr_list(x: &Expr, y: &Expr)
    ensures
        match (x, y) {
            (Expr::List(a), Expr::List(b)) => expr_shape(x) == expr_shape(y) <==> (exprs_alike(a.elts@, b.elts@) && a.ctx == b.ctx),
            _ => true,
        },
{
    let l = expr_shape(x)->List_0;
    let m = expr_shape(y)->List_0;
    match (x, y) {
        (Expr::List(a), Expr::List(b)) => {
            lemma_exprs_alike(a.elts@, b.elts@);
            lemma_context_names(a.ctx, b.ctx);
            if expr_shape(x) == expr_shape(y) {
                assert(l[1] == m[1]);
                assert(l[2] == m[2]);
            }
            if l[1] == m[1] && l[2] == m[2] {
                assert(l =~= m);
            }
        },
        _ => {},
    }
}

proof fn lemma_expr_tuple(x: &Expr, y: &Expr)
    ensures
        match (x, y) {
            (Expr::Tuple(a), Expr::Tuple(b)) => expr_shape(x) == expr_shape(y) <==> (exprs_alike(a.elts@, b.elts@) && a.ctx == b.ctx),
            _ => true,
        },
{
    let l = expr_shape(x)->List_0;
    let m = expr_shape(y)->List_0;
    match (x, y) {
        (Expr::Tuple(a), Expr::Tuple(b)) => {
            lemma_exprs_alike(a.elts@, b.elts@);
            lemma_context_names(a.ctx, b.ctx);
            if expr_shape(x) == expr_shape(y) {
                assert(l[1] == m[1]);
                assert(l[2] == m[2]);
            }
            if l[1] == m[1] && l[2] == m[2] {
                assert(l =~= m);
            }
        },
        _ => {},
    }
}

proof fn lemma_expr_slice(x: &Expr, y: &Expr)
    ensures
        match (x, y) {
            (Expr::Slice(a), Expr::Slice(b)) => expr_shape(x) == expr_shape(y) <==> (opt_exprs_alike(a.lower, b.lower) && opt_exprs_alike(a.upper, b.upper) && opt_exprs_alike(a.step, b.step)),
            _ => true,
        },
{
    let l = expr_shape(x)->List_0;
    let m = expr_shape(y)->List_0;
    match (x, y) {
        (Expr::Slice(a), Expr::Slice(b)) => {
            lemma_opt_exprs_alike(a.lower, b.lower);
            lemma_opt_exprs_alike(a.upper, b.upper);
            lemma_opt_exprs_alike(a.step, b.step);
            if expr_shape(x) == expr_shape(y) {
                assert(l[1] == m[1]);
                assert(l[2] == m[2]);
                assert(l[3] == m[3]);
            }
            if l[1] == m[1] && l[2] == m[2] && l[3] == m[3] {
                assert(l =~= m);
            }
        },
        _ => {},
    }
}

/// Two expressions are alike exactly where they are of the same kind and all of their parts are
/// alike; where they stand does not matter.
pub proof fn law_expr_parts_are_told_apart(x: &Expr, y: &Expr)
    ensures
        expr_shape(x) == expr_shape(y) <==> match (x, y) {
            (Expr::BoolOp(a), Expr::BoolOp(b)) => { a.op == b.op && exprs_alike(a.values@, b.values@) },
            (Expr::NamedExpr(a), Expr::NamedExpr(b)) => { expr_shape(&a.target) == expr_shape(&b.target) && expr_shape(&a.value) == expr_shape(&b.value) },
            (Expr::BinOp(a), Expr::BinOp(b)) => { expr_shape(&a.left) == expr_shape(&b.left) && a.op == b.op && expr_shape(&a.right) == expr_shape(&b.right) },
            (Expr::UnaryOp(a), Expr::UnaryOp(b)) => { a.op == b.op && expr_shape(&a.operand) == expr_shape(&b.operand) },
            (Expr::Lambda(a), Expr::Lambda(b)) => { arguments_shape(&a.args) == arguments_shape(&b.args) && expr_shape(&a.body) == expr_shape(&b.body) },
            (Expr::IfExp(a), Expr::IfExp(b)) => { expr_shape(&a.test) == expr_shape(&b.test) && expr_shape(&a.body) == expr_shape(&b.body) && expr_shape(&a.orelse) == expr_shape(&b.orelse) },
            (Expr::Dict(a), Expr::Dict(b)) => { opt_expr_lists_alike(a.keys@, b.keys@) && exprs_alike(a.values@, b.values@) },
            (Expr::Set(a), Expr::Set(b)) => { exprs_alike(a.elts@, b.elts@) },
            (Expr::ListComp(a), Expr::ListComp(b)) => { expr_shape(&a.elt) == expr_shape(&b.elt) && comprehensions_alike(a.generators@, b.generators@) },
            (Expr::SetComp(a), Expr::SetComp(b)) => { expr_shape(&a.elt) == expr_shape(&b.elt) && comprehensions_alike(a.generators@, b.generators@) },
            (Expr::DictComp(a), Expr::DictComp(b)) => { expr_shape(&a.key) == expr_shape(&b.key) && expr_shape(&a.value) == expr_shape(&b.value) && comprehensions_alike(a.generators@, b.generators@) },
            (Expr::GeneratorExp(a), Expr::GeneratorExp(b)) => { expr_shape(&a.elt) == expr_shape(&b.elt) && comprehensions_alike(a.generators@, b.generators@) },
            (Expr::Await(a), Expr::Await(b)) => { expr_shape(&a.value) == expr_shape(&b.value) },
            (Expr::Yield(a), Expr::Yield(b)) => { opt_exprs_alike(a.value, b.value) },
            (Expr::YieldFrom(a), Expr::YieldFrom(b)) => { expr_shape(&a.value) == expr_shape(&b.value) },
            (Expr::Compare(a), Expr::Compare(b)) => { expr_shape(&a.left) == expr_shape(&b.left) && comparisons_alike(a.ops@, b.ops@) && exprs_alike(a.comparators@, b.comparators@) },
            (Expr::Call(a), Expr::Call(b)) => { expr_shape(&a.func) == expr_shape(&b.func) && exprs_alike(a.args@, b.args@) && keywords_alike(a.keywords@, b.keywords@) },
            (Expr::FormattedValue(a), Expr::FormattedValue(b)) => { expr_shape(&a.value) == expr_shape(&b.value) && a.conversion == b.conversion && opt_exprs_alike(a.format_spec, b.format_spec) },
            (Expr::JoinedStr(a), Expr::JoinedStr(b)) => { exprs_alike(a.values@, b.values@) },
            (Expr::Constant(a), Expr::Constant(b)) => { constant_shape(&a.value) == constant_shape(&b.value) && opt_texts_alike(a.kind, b.kind) },
            (Expr::Attribute(a), Expr::Attribute(b)) => { expr_shape(&a.value) == expr_shape(&b.value) && identifier_text(a.attr) == identifier_text(b.attr) && a.ctx == b.ctx },
            (Expr::Subscript(a), Expr::Subscript(b)) => { expr_shape(&a.value) == expr_shape(&b.value) && expr_shape(&a.slice) == expr_shape(&b.slice) && a.ctx == b.ctx },
            (Expr::Starred(a), Expr::Starred(b)) => { expr_shape(&a.value) == expr_shape(&b.value) && a.ctx == b.ctx },
            (Expr::Name(a), Expr::Name(b)) => { identifier_text(a.id) == identifier_text(b.id) && a.ctx == b.ctx },
            (Expr::List(a), Expr::List(b)) => { exprs_alike(a.elts@, b.elts@) && a.ctx == b.ctx },
            (Expr::Tuple(a), Expr::Tuple(b)) => { exprs_alike(a.elts@, b.elts@) && a.ctx == b.ctx },
            (Expr::Slice(a), Expr::Slice(b)) => { opt_exprs_alike(a.lower, b.lower) && opt_exprs_alike(a.upper, b.upper) && opt_exprs_alike(a.step, b.step) },
            _ => false,
        },
{
    lemma_expr_tag(x);
    lemma_expr_tag(y);
    match (x, y) {
        (Expr::BoolOp(_), Expr::BoolOp(_)) => { lemma_expr_boolop(x, y); },
        (Expr::NamedExpr(_), Expr::NamedExpr(_)) => { lemma_expr_namedexpr(x, y); },
        (Expr::BinOp(_), Expr::BinOp(_)) => { lemma_expr_binop(x, y); },
        (Expr::UnaryOp(_), Expr::UnaryOp(_)) => { lemma_expr_unaryop(x, y); },
        (Expr::Lambda(_), Expr::Lambda(_)) => { lemma_expr_lambda(x, y); },
        (Expr::IfExp(_), Expr::IfExp(_)) => { lemma_expr_ifexp(x, y); },
        (Expr::Dict(_), Expr::Dict(_)) => { lemma_expr_dict(x, y); },
        (Expr::Set(_), Expr::Set(_)) => { lemma_expr_set(x, y); },
        (Expr::ListComp(_), Expr::ListComp(_)) => { lemma_expr_listcomp(x, y); },
        (Expr::SetComp(_), Expr::SetComp(_)) => { lemma_expr_setcomp(x, y); },
        (Expr::DictComp(_), Expr::DictComp(_)) => { lemma_expr_dictcomp(x, y); },
        (Expr::GeneratorExp(_), Expr::GeneratorExp(_)) => { lemma_expr_generatorexp(x, y); },
        (Expr::Await(_), Expr::Await(_)) => { lemma_expr_await(x, y); },
        (Expr::Yield(_), Expr::Yield(_)) => { lemma_expr_yield(x, y); },
        (Expr::YieldFrom(_), Expr::YieldFrom(_)) => { lemma_expr_yieldfrom(x, y); },
        (Expr::Compare(_), Expr::Compare(_)) => { lemma_expr_compare(x, y); },
        (Expr::Call(_), Expr::Call(_)) => { lemma_expr_call(x, y); },
        (Expr::FormattedValue(_), Expr::FormattedValue(_)) => { lemma_expr_formattedvalue(x, y); },
        (Expr::JoinedStr(_), Expr::JoinedStr(_)) => { lemma_expr_joinedstr(x, y); },
        (Expr::Constant(_), Expr::Constant(_)) => { lemma_expr_constant(x, y); },
        (Expr::Attribute(_), Expr::Attribute(_)) => { lemma_expr_attribute(x, y); },
        (Expr::Subscript(_), Expr::Subscript(_)) => { lemma_expr_subscript(x, y); },
        (Expr::Starred(_), Expr::Starred(_)) => { lemma_expr_starred(x, y); },
        (Expr::Name(_), Expr::Name(_)) => { lemma_expr_name(x, y); },
        (Expr::List(_), Expr::List(_)) => { lemma_expr_list(x, y); },
        (Expr::Tuple(_), Expr::Tuple(_)) => { lemma_expr_tuple(x, y); },
        (Expr::Slice(_), Expr::Slice(_)) => { lemma_expr_slice(x, y); },
        _ => {
            assert(expr_number(*x) != expr_number(*y));
        },
    }
}

spec fn pattern_tag(t: Seq<char>) -> nat {
    if t == "MatchValue"@ { 0 } else if t == "MatchSingleton"@ { 1 } else if t == "MatchSequence"@ { 2 } else if t == "MatchMapping"@ { 3 } else if t == "MatchClass"@ { 4 } else if t == "MatchStar"@ { 5 } else if t == "MatchAs"@ { 6 } else if t == "MatchOr"@ { 7 } else { 8 }
}

spec fn pattern_number(x: Pattern) -> nat {
    match x {
        Pattern::MatchValue(_) => 0,
        Pattern::MatchSingleton(_) => 1,
        Pattern::MatchSequence(_) => 2,
        Pattern::MatchMapping(_) => 3,
        Pattern::MatchClass(_) => 4,
        Pattern::MatchStar(_) => 5,
        Pattern::MatchAs(_) => 6,
        Pattern::MatchOr(_) => 7,
    }
}

proof fn lemma_pattern_tags()
    ensures
        pattern_tag("MatchValue"@) == 0,
        pattern_tag("MatchSingleton"@) == 1,
        pattern_tag("MatchSequence"@) == 2,
        pattern_tag("MatchMapping"@) == 3,
        pattern_tag("MatchClass"@) == 4,
        pattern_tag("MatchStar"@) == 5,
        pattern_tag("MatchAs"@) == 6,
        pattern_tag("MatchOr"@) == 7,
{
    reveal_strlit("MatchValue");
    assert("MatchValue"@.len() == 10);
    reveal_strlit("MatchSingleton");
    assert("MatchSingleton"@.len() == 14);
    reveal_strlit("MatchSequence");
    assert("MatchSequence"@.len() == 13);
    reveal_strlit("MatchMapping");
    assert("MatchMapping"@.len() == 12);
    reveal_strlit("MatchClass");
    assert("MatchClass"@.len() == 10);
    reveal_strlit("MatchStar");
    assert("MatchStar"@.len() == 9);
    reveal_strlit("MatchAs");
    assert("MatchAs"@.len() == 7);
    reveal_strlit("MatchOr");
    assert("MatchOr"@.len() == 7);
    assert("MatchValue"@[5] != "MatchClass"@[5]);
    assert("MatchAs"@[5] != "MatchOr"@[5]);
}

proof fn lemma_pattern_tag(x: &Pattern)
    ensures
        pattern_shape(x) is List,
        pattern_shape(x)->List_0.len() > 0,
        pattern_shape(x)->List_0[0] is Word,
        pattern_tag(pattern_shape(x)->List_0[0]->Word_0) == pattern_number(*x),
{
    lemma_pattern_tags();
}

proof fn lemma_pattern_matchvalue(x: &Pattern, y: &Pattern)
    ensures
        match (x, y) {
            (Pattern::MatchValue(a), Pattern::MatchValue(b)) => pattern_shape(x) == pattern_shape(y) <==> (expr_shape(&a.value) == expr_shape(&b.value)),
            _ => true,
        },
{
    let l = pattern_shape(x)->List_0;
    let m = pattern_shape(y)->List_0;
    match (x, y) {
        (Pattern::MatchValue(a), Pattern::MatchValue(b)) => {
            if pattern_shape(x) == pattern_shape(y) {
                assert(l[1] == m[1]);
            }
            if l[1] == m[1] {
                assert(l =~= m);
            }
        },
        _ => {},
    }
}

proof fn lemma_pattern_matchsingleton(x: &Pattern, y: &Pattern)
    ensures
        match (x, y) {
            (Pattern::MatchSingleton(a), Pattern::MatchSingleton(b)) => pattern_shape(x) == pattern_shape(y) <==> (constant_shape(&a.value) == constant_shape(&b.value)),
            _ => true,
        },
{
    let l = pattern_shape(x)->List_0;
    let m = pattern_shape(y)->List_0;
    match (x, y) {
        (Pattern::MatchSingleton(a), Pattern::MatchSingleton(b)) => {
            if pattern_shape(x) == pattern_shape(y) {
                assert(l[1] == m[1]);
            }
            if l[1] == m[1] {
                assert(l =~= m);
            }
        },
        _ => {},
    }
}

proof fn lemma_pattern_matchsequence(x: &Pattern, y: &Pattern)
    ensures
        match (x, y) {
            (Pattern::MatchSequence(a), Pattern::MatchSequence(b)) => pattern_shape(x) == pattern_shape(y) <==> (patterns_alike(a.patterns@, b.patterns@)),
            _ => true,
        },
{
    let l = pattern_shape(x)->List_0;
    let m = pattern_shape(y)->List_0;
    match (x, y) {
        (Pattern::MatchSequence(a), Pattern::MatchSequence(b)) => {
            lemma_patterns_alike(a.patterns@, b.patterns@);
            if pattern_shape(x) == pattern_shape(y) {
                assert(l[1] == m[1]);
            }
            if l[1] == m[1] {
                assert(l =~= m);
            }
        },
        _ => {},
    }
}

proof fn lemma_pattern_matchmapping(x: &Pattern, y: &Pattern)
    ensures
        match (x, y) {
            (Pattern::MatchMapping(a), Pattern::MatchMapping(b)) => pattern_shape(x) == pattern_shape(y) <==> (exprs_alike(a.keys@, b.keys@) && patterns_alike(a.patterns@, b.patterns@) && opt_names_alike(a.rest, b.rest)),
            _ => true,
        },
{
    let l = pattern_shape(x)->List_0;
    let m = pattern_shape(y)->List_0;
    match (x, y) {
        (Pattern::MatchMapping(a), Pattern::MatchMapping(b)) => {
            lemma_exprs_alike(a.keys@, b.keys@);
            lemma_patterns_alike(a.patterns@, b.patterns@);
            lemma_opt_names_alike(a.rest, b.rest);
            if pattern_shape(x) == pattern_shape(y) {
                assert(l[1] == m[1]);
                assert(l[2] == m[2]);
                assert(l[3] == m[3]);
            }
            if l[1] == m[1] && l[2] == m[2] && l[3] == m[3] {
                assert(l =~= m);
            }
        },
        _ => {},
    }
}

proof fn lemma_pattern_matchclass(x: &Pattern, y: &Pattern)
    ensures
        match (x, y) {
            (Pattern::MatchClass(a), Pattern::MatchClass(b)) => pattern_shape(x) == pattern_shape(y) <==> (expr_shape(&a.cls) == expr_shape(&b.cls) && patterns_alike(a.patterns@, b.patterns@) && names_alike(a.kwd_attrs@, b.kwd_attrs@) && patterns_alike(a.kwd_patterns@, b.kwd_patterns@)),
            _ => true,
        },
{
    let l = pattern_shape(x)->List_0;
    let m = pattern_shape(y)->List_0;
    match (x, y) {
        (Pattern::MatchClass(a), Pattern::MatchClass(b)) => {
            lemma_patterns_alike(a.patterns@, b.patterns@);
            lemma_names_alike(a.kwd_attrs@, b.kwd_attrs@);
            lemma_patterns_alike(a.kwd_patterns@, b.kwd_patterns@);
            if pattern_shape(x) == pattern_shape(y) {
                assert(l[1] == m[1]);
                assert(l[2] == m[2]);
                assert(l[3] == m[3]);
                assert(l[4] == m[4]);
            }
            if l[1] == m[1] && l[2] == m[2] && l[3] == m[3] && l[4] == m[4] {
                assert(l =~= m);
            }
        },
        _ => {},
    }
}

proof fn lemma_pattern_matchstar(x: &Pattern, y: &Pattern)
    ensures
        match (x, y) {
            (Pattern::MatchStar(a), Pattern::MatchStar(b)) => pattern_shape(x) == pattern_shape(y) <==> (opt_names_alike(a.name, b.name)),
            _ => true,
        },
{
    let l = pattern_shape(x)->List_0;
    let m = pattern_shape(y)->List_0;
    match (x, y) {
        (Pattern::MatchStar(a), Pattern::MatchStar(b)) => {
            lemma_opt_names_alike(a.name, b.name);
            if pattern_shape(x) == pattern_shape(y) {
                assert(l[1] == m[1]);
            }
            if l[1] == m[1] {
                assert(l =~= m);
            }
        },
        _ => {},
    }
}

proof fn lemma_pattern_matchas(x: &Pattern, y: &Pattern)
    ensures
        match (x, y) {
            (Pattern::MatchAs(a), Pattern::MatchAs(b)) => pattern_shape(x) == pattern_shape(y) <==> (opt_patterns_alike(a.pattern, b.pattern) && opt_names_alike(a.name, b.name)),
            _ => true,
        },
{
    let l = pattern_shape(x)->List_0;
    let m = pattern_shape(y)->List_0;
    match (x, y) {
        (Pattern::MatchAs(a), Pattern::MatchAs(b)) => {
            lemma_opt_patterns_alike(a.pattern, b.pattern);
            lemma_opt_names_alike(a.name, b.name);
            if pattern_shape(x) == pattern_shape(y) {
                assert(l[1] == m[1]);
                assert(l[2] == m[2]);
            }
            if l[1] == m[1] && l[2] == m[2] {
                assert(l =~= m);
            }
        },
        _ => {},
    }
}

proof fn lemma_pattern_matchor(x: &Pattern, y: &Pattern)
    ensures
        match (x, y) {
            (Pattern::MatchOr(a), Pattern::MatchOr(b)) => pattern_shape(x) == pattern_shape(y) <==> (patterns_alike(a.patterns@, b.patterns@)),
            _ => true,
        },
{
    let l = pattern_shape(x)->List_0;
    let m = pattern_shape(y)->List_0;
    match (x, y) {
        (Pattern::MatchOr(a), Pattern::MatchOr(b)) => {
            lemma_patterns_alike(a.patterns@, b.patterns@);
            if pattern_shape(x) == pattern_shape(y) {
                assert(l[1] == m[1]);
            }
            if l[1] == m[1] {
                assert(l =~= m);
            }
        },
        _ => {},
    }
}

/// Two patterns are alike exactly where they are of the same kind and all of their parts are
/// alike; where they stand does not matter.
pub proof fn law_pattern_parts_are_told_apart(x: &Pattern, y: &Pattern)
    ensures
        pattern_shape(x) == pattern_shape(y) <==> match (x, y) {
            (Pattern::MatchValue(a), Pattern::MatchValue(b)) => { expr_shape(&a.value) == expr_shape(&b.value) },
            (Pattern::MatchSingleton(a), Pattern::MatchSingleton(b)) => { constant_shape(&a.value) == constant_shape(&b.value) },
            (Pattern::MatchSequence(a), Pattern::MatchSequence(b)) => { patterns_alike(a.patterns@, b.patterns@) },
            (Pattern::MatchMapping(a), Pattern::MatchMapping(b)) => { exprs_alike(a.keys@, b.keys@) && patterns_alike(a.patterns@, b.patterns@) && opt_names_alike(a.rest, b.rest) },
            (Pattern::MatchClass(a), Pattern::MatchClass(b)) => { expr_shape(&a.cls) == expr_shape(&b.cls) && patterns_alike(a.patterns@, b.patterns@) && names_alike(a.kwd_attrs@, b.kwd_attrs@) && patterns_alike(a.kwd_patterns@, b.kwd_patterns@) },
            (Pattern::MatchStar(a), Pattern::MatchStar(b)) => { opt_names_alike(a.name, b.name) },
            (Pattern::MatchAs(a), Pattern::MatchAs(b)) => { opt_patterns_alike(a.pattern, b.pattern) && opt_names_alike(a.name, b.name) },
            (Pattern::MatchOr(a), Pattern::MatchOr(b)) => { patterns_alike(a.patterns@, b.patterns@) },
            _ => false,
        },
{
    lemma_pattern_tag(x);
    lemma_pattern_tag(y);
    match (x, y) {
        (Pattern::MatchValue(_), Pattern::MatchValue(_)) => { lemma_pattern_matchvalue(x, y); },
        (Pattern::MatchSingleton(_), Pattern::MatchSingleton(_)) => { lemma_pattern_matchsingleton(x, y); },
        (Pattern::MatchSequence(_), Pattern::MatchSequence(_)) => { lemma_pattern_matchsequence(x, y); },
        (Pattern::MatchMapping(_), Pattern::MatchMapping(_)) => { lemma_pattern_matchmapping(x, y); },
        (Pattern::MatchClass(_), Pattern::MatchClass(_)) => { lemma_pattern_matchclass(x, y); },
        (Pattern::MatchStar(_), Pattern::MatchStar(_)) => { lemma_pattern_matchstar(x, y); },
        (Pattern::MatchAs(_), Pattern::MatchAs(_)) => { lemma_pattern_matchas(x, y); },
        (Pattern::MatchOr(_), Pattern::MatchOr(_)) => { lemma_pattern_matchor(x, y); },
        _ => {
            assert(pattern_number(*x) != pattern_number(*y));
        },
    }
}

spec fn type_param_tag(t: Seq<char>) -> nat {
    if t == "TypeVar"@ { 0 } else if t == "ParamSpec"@ { 1 } else if t == "TypeVarTuple"@ { 2 } else { 3 }
}

spec fn type_param_number(x: TypeParam) -> nat {
    match x {
        TypeParam::TypeVar(_) => 0,
        TypeParam::ParamSpec(_) => 1,
        TypeParam::TypeVarTuple(_) => 2,
    }
}

proof fn lemma_type_param_tags()
    ensures
        type_param_tag("TypeVar"@) == 0,
        type_param_tag("ParamSpec"@) == 1,
        type_param_tag("TypeVarTuple"@) == 2,
{
    reveal_strlit("TypeVar");
    assert("TypeVar"@.len() == 7);
    reveal_strlit("ParamSpec");
    assert("ParamSpec"@.len() == 9);
    reveal_strlit("TypeVarTuple");
    assert("TypeVarTuple"@.len() == 12);
}

proof fn lemma_type_param_tag(x: &TypeParam)
    ensures
        type_param_shape(x) is List,
        type_param_shape(x)->List_0.len() > 0,
        type_param_shape(x)->List_0[0] is Word,
        type_param_tag(type_param_shape(x)->List_0[0]->Word_0) == type_param_number(*x),
{
    lemma_type_param_tags();
}

proof fn lemma_type_param_typevar(x: &TypeParam, y: &TypeParam)
    ensures
        match (x, y) {
            (TypeParam::TypeVar(a), TypeParam::TypeVar(b)) => type_param_shape(x) == type_param_shape(y) <==> (identifier_text(a.name) == identifier_text(b.name) && opt_exprs_alike(a.bound, b.bound)),
            _ => true,
        },
{
    let l = type_param_shape(x)->List_0;
    let m = type_param_shape(y)->List_0;
    match (x, y) {
        (TypeParam::TypeVar(a), TypeParam::TypeVar(b)) => {
            lemma_opt_exprs_alike(a.bound, b.bound);
            if type_param_shape(x) == type_param_shape(y) {
                assert(l[1] == m[1]);
                assert(l[2] == m[2]);
            }
            if l[1] == m[1] && l[2] == m[2] {
                assert(l =~= m);
            }
        },
        _ => {},
    }
}

proof fn lemma_type_param_paramspec(x: &TypeParam, y: &TypeParam)
    ensures
        match (x, y) {
            (TypeParam::ParamSpec(a), TypeParam::ParamSpec(b)) => type_param_shape(x) == type_param_shape(y) <==> (identifier_text(a.name) == identifier_text(b.name)),
            _ => true,
        },
{
    let l = type_param_shape(x)->List_0;
    let m = type_param_shape(y)->List_0;
    match (x, y) {
        (TypeParam::ParamSpec(a), TypeParam::ParamSpec(b)) => {
            if type_param_shape(x) == type_param_shape(y) {
                assert(l[1] == m[1]);
            }
            if l[1] == m[1] {
                assert(l =~= m);
            }
        },
        _ => {},
    }
}

proof fn lemma_type_param_typevartuple(x: &TypeParam, y: &TypeParam)
    ensures
        match (x, y) {
            (TypeParam::TypeVarTuple(a), TypeParam::TypeVarTuple(b)) => type_param_shape(x) == type_param_shape(y) <==> (identifier_text(a.name) == identifier_text(b.name)),
            _ => true,
        },
{
    let l = type_param_shape(x)->List_0;
    let m = type_param_shape(y)->List_0;
    match (x, y) {
        (TypeParam::TypeVarTuple(a), TypeParam::TypeVarTuple(b)) => {
            if type_param_shape(x) == type_param_shape(y) {
                assert(l[1] == m[1]);
            }
            if l[1] == m[1] {
                assert(l =~= m);
            }
        },
        _ => {},
    }
}

/// Two type parameters are alike exactly where they are of the same kind and all of their parts are
/// alike; where they stand does not matter.
pub proof fn law_type_param_parts_are_told_apart(x: &TypeParam, y: &TypeParam)
    ensures
        type_param_shape(x) == type_param_shape(y) <==> match (x, y) {
            (TypeParam::TypeVar(a), TypeParam::TypeVar(b)) => { identifier_text(a.name) == identifier_text(b.name) && opt_exprs_alike(a.bound, b.bound) },
            (TypeParam::ParamSpec(a), TypeParam::ParamSpec(b)) => { identifier_text(a.name) == identifier_text(b.name) },
            (TypeParam::TypeVarTuple(a), TypeParam::TypeVarTuple(b)) => { identifier_text(a.name) == identifier_text(b.name) },
            _ => false,
        },
{
    lemma_type_param_tag(x);
    lemma_type_param_tag(y);
    match (x, y) {
        (TypeParam::TypeVar(_), TypeParam::TypeVar(_)) => { lemma_type_param_typevar(x, y); },
        (TypeParam::ParamSpec(_), TypeParam::ParamSpec(_)) => { lemma_type_param_paramspec(x, y); },
        (TypeParam::TypeVarTuple(_), TypeParam::TypeVarTuple(_)) => { lemma_type_param_typevartuple(x, y); },
        _ => {
            assert(type_param_number(*x) != type_param_number(*y));
        },
    }
}

spec fn constant_tag(t: Seq<char>) -> nat {
    if t == "None"@ { 0 } else if t == "Bool"@ { 1 } else if t == "Str"@ { 2 } else if t == "Bytes"@ { 3 } else if t == "Int"@ { 4 } else if t == "Tuple"@ { 5 } else if t == "Float"@ { 6 } else if t == "Complex"@ { 7 } else if t == "Ellipsis"@ { 8 } else { 9 }
}

spec fn constant_number(x: Constant) -> nat {
    match x {
        Constant::None => 0,
        Constant::Bool(_) => 1,
        Constant::Str(_) => 2,
        Constant::Bytes(_) => 3,
        Constant::Int(_) => 4,
        Constant::Tuple(_) => 5,
        Constant::Float(_) => 6,
        Constant::Complex { .. } => 7,
        Constant::Ellipsis => 8,
    }
}

proof fn lemma_constant_tag(x: &Constant)
    ensures
        constant_shape(x) is List,
        constant_shape(x)->List_0.len() > 0,
        constant_shape(x)->List_0[0] is Word,
        constant_tag(constant_shape(x)->List_0[0]->Word_0) == constant_number(*x),
{
    reveal_strlit("None");
    assert("None"@.len() == 4);
    reveal_strlit("Bool");
    assert("Bool"@.len() == 4);
    reveal_strlit("Str");
    assert("Str"@.len() == 3);
    reveal_strlit("Bytes");
    assert("Bytes"@.len() == 5);
    reveal_strlit("Int");
    assert("Int"@.len() == 3);
    reveal_strlit("Tuple");
    assert("Tuple"@.len() == 5);
    reveal_strlit("Float");
    assert("Float"@.len() == 5);
    reveal_strlit("Complex");
    assert("Complex"@.len() == 7);
    reveal_strlit("Ellipsis");
    assert("Ellipsis"@.len() == 8);
    assert("None"@[0] != "Bool"@[0]);
    assert("Str"@[0] != "Int"@[0]);
    assert("Bytes"@[0] != "Tuple"@[0]);
    assert("Bytes"@[0] != "Float"@[0]);
    assert("Tuple"@[0] != "Float"@[0]);
}

/// Two literals are alike exactly where they are of the same kind and have the same value.
pub proof fn law_constant_parts_are_told_apart(x: &Constant, y: &Constant)
    ensures
        constant_shape(x) == constant_shape(y) <==> match (x, y) {
            (Constant::None, Constant::None) => true,
            (Constant::Bool(a), Constant::Bool(b)) => a == b,
            (Constant::Str(a), Constant::Str(b)) => a@ == b@,
            (Constant::Bytes(a), Constant::Bytes(b)) => bytes_alike(a@, b@),
            (Constant::Int(a), Constant::Int(b)) => integer_text(*a) == integer_text(*b),
            (Constant::Tuple(a), Constant::Tuple(b)) => constants_alike(a@, b@),
            (Constant::Float(_), Constant::Float(_)) => float_texts(*x)[0] == float_texts(*y)[0],
            (Constant::Complex { .. }, Constant::Complex { .. }) => float_texts(*x)[0]
                == float_texts(*y)[0] && float_texts(*x)[1] == float_texts(*y)[1],
            (Constant::Ellipsis, Constant::Ellipsis) => true,
            _ => false,
        },
{
    lemma_constant_tag(x);
    lemma_constant_tag(y);
    lemma_flags();
    let l = constant_shape(x)->List_0;
    let m = constant_shape(y)->List_0;
    if constant_shape(x) == constant_shape(y) {
        assert(constant_number(*x) == constant_number(*y));
        assert(l[1] == m[1]);
        assert(l[2] == m[2]);
    }
    if constant_number(*x) == constant_number(*y) && l[1] == m[1] && l[2] == m[2] {
        assert(l =~= m);
    }
    match (x, y) {
        (Constant::Bytes(a), Constant::Bytes(b)) => {
            lemma_bytes_alike(a@, b@);
        },
        (Constant::Tuple(a), Constant::Tuple(b)) => {
            lemma_constants_alike(a@, b@);
        },
        _ => {},
    }
    if l.len() == 1 && m.len() == 1 && constant_number(*x) == constant_number(*y) {
        assert(l =~= m);
    }
    if l.len() == 2 && m.len() == 2 && constant_number(*x) == constant_number(*y) && l[1] == m[1] {
        assert(l =~= m);
    }
}

/// Two blocks have the same text exactly where they have as many statements, alike one by one.
pub proof fn law_dumps_tell_statements_apart(a: Seq<Stmt>, b: Seq<Stmt>)
    ensures
        dump(a) == dump(b) <==> stmts_alike(a, b),
{
    law_dumps_tell_blocks_apart(a, b);
    lemma_stmts_alike(a, b);
}

} // verus!
