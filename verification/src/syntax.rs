//! The Python syntax tree of `rustpython_ast`, as the checks read it.
//!
//! Every node type whose fields are public is declared with its fields and
//! variants, so that the verifier sees the same structure as the compiler.
//! Names, source ranges and numbers are closed to it: the functions at the end of
//! this file read them.

use crate::text::texts;
use rustpython_ast::bigint::BigInt;
use rustpython_ast::text_size::TextRange;
use rustpython_ast::{Constant, Identifier, Int, Mod};
use vstd::prelude::*;
use vstd::string::*;

verus! {

// ── Node types ──────────────────────────────────────────────────────────────

/// `rustpython_ast::Mod` with its variants.
#[verifier::external_type_specification]
#[verifier::reject_recursive_types(R)]
pub struct ExMod<R>(rustpython_ast::Mod<R>);

/// `rustpython_ast::ModModule` with its fields.
#[verifier::external_type_specification]
#[verifier::reject_recursive_types(R)]
pub struct ExModModule<R>(rustpython_ast::ModModule<R>);

/// `rustpython_ast::ModInteractive` with its fields.
#[verifier::external_type_specification]
#[verifier::reject_recursive_types(R)]
pub struct ExModInteractive<R>(rustpython_ast::ModInteractive<R>);

/// `rustpython_ast::ModExpression` with its fields.
#[verifier::external_type_specification]
#[verifier::reject_recursive_types(R)]
pub struct ExModExpression<R>(rustpython_ast::ModExpression<R>);

/// `rustpython_ast::ModFunctionType` with its fields.
#[verifier::external_type_specification]
#[verifier::reject_recursive_types(R)]
pub struct ExModFunctionType<R>(rustpython_ast::ModFunctionType<R>);

/// `rustpython_ast::Stmt` with its variants.
#[verifier::external_type_specification]
#[verifier::reject_recursive_types(R)]
pub struct ExStmt<R>(rustpython_ast::Stmt<R>);

/// `rustpython_ast::StmtFunctionDef` with its fields.
#[verifier::external_type_specification]
#[verifier::reject_recursive_types(R)]
pub struct ExStmtFunctionDef<R>(rustpython_ast::StmtFunctionDef<R>);

/// `rustpython_ast::StmtAsyncFunctionDef` with its fields.
#[verifier::external_type_specification]
#[verifier::reject_recursive_types(R)]
pub struct ExStmtAsyncFunctionDef<R>(rustpython_ast::StmtAsyncFunctionDef<R>);

/// `rustpython_ast::StmtClassDef` with its fields.
#[verifier::external_type_specification]
#[verifier::reject_recursive_types(R)]
pub struct ExStmtClassDef<R>(rustpython_ast::StmtClassDef<R>);

/// `rustpython_ast::StmtReturn` with its fields.
#[verifier::external_type_specification]
#[verifier::reject_recursive_types(R)]
pub struct ExStmtReturn<R>(rustpython_ast::StmtReturn<R>);

/// `rustpython_ast::StmtDelete` with its fields.
#[verifier::external_type_specification]
#[verifier::reject_recursive_types(R)]
pub struct ExStmtDelete<R>(rustpython_ast::StmtDelete<R>);

/// `rustpython_ast::StmtAssign` with its fields.
#[verifier::external_type_specification]
#[verifier::reject_recursive_types(R)]
pub struct ExStmtAssign<R>(rustpython_ast::StmtAssign<R>);

/// `rustpython_ast::StmtTypeAlias` with its fields.
#[verifier::external_type_specification]
#[verifier::reject_recursive_types(R)]
pub struct ExStmtTypeAlias<R>(rustpython_ast::StmtTypeAlias<R>);

/// `rustpython_ast::StmtAugAssign` with its fields.
#[verifier::external_type_specification]
#[verifier::reject_recursive_types(R)]
pub struct ExStmtAugAssign<R>(rustpython_ast::StmtAugAssign<R>);

/// `rustpython_ast::StmtAnnAssign` with its fields.
#[verifier::external_type_specification]
#[verifier::reject_recursive_types(R)]
pub struct ExStmtAnnAssign<R>(rustpython_ast::StmtAnnAssign<R>);

/// `rustpython_ast::StmtFor` with its fields.
#[verifier::external_type_specification]
#[verifier::reject_recursive_types(R)]
pub struct ExStmtFor<R>(rustpython_ast::StmtFor<R>);

/// `rustpython_ast::StmtAsyncFor` with its fields.
#[verifier::external_type_specification]
#[verifier::reject_recursive_types(R)]
pub struct ExStmtAsyncFor<R>(rustpython_ast::StmtAsyncFor<R>);

/// `rustpython_ast::StmtWhile` with its fields.
#[verifier::external_type_specification]
#[verifier::reject_recursive_types(R)]
pub struct ExStmtWhile<R>(rustpython_ast::StmtWhile<R>);

/// `rustpython_ast::StmtIf` with its fields.
#[verifier::external_type_specification]
#[verifier::reject_recursive_types(R)]
pub struct ExStmtIf<R>(rustpython_ast::StmtIf<R>);

/// `rustpython_ast::StmtWith` with its fields.
#[verifier::external_type_specification]
#[verifier::reject_recursive_types(R)]
pub struct ExStmtWith<R>(rustpython_ast::StmtWith<R>);

/// `rustpython_ast::StmtAsyncWith` with its fields.
#[verifier::external_type_specification]
#[verifier::reject_recursive_types(R)]
pub struct ExStmtAsyncWith<R>(rustpython_ast::StmtAsyncWith<R>);

/// `rustpython_ast::StmtMatch` with its fields.
#[verifier::external_type_specification]
#[verifier::reject_recursive_types(R)]
pub struct ExStmtMatch<R>(rustpython_ast::StmtMatch<R>);

/// `rustpython_ast::StmtRaise` with its fields.
#[verifier::external_type_specification]
#[verifier::reject_recursive_types(R)]
pub struct ExStmtRaise<R>(rustpython_ast::StmtRaise<R>);

/// `rustpython_ast::StmtTry` with its fields.
#[verifier::external_type_specification]
#[verifier::reject_recursive_types(R)]
pub struct ExStmtTry<R>(rustpython_ast::StmtTry<R>);

/// `rustpython_ast::StmtTryStar` with its fields.
#[verifier::external_type_specification]
#[verifier::reject_recursive_types(R)]
pub struct ExStmtTryStar<R>(rustpython_ast::StmtTryStar<R>);

/// `rustpython_ast::StmtAssert` with its fields.
#[verifier::external_type_specification]
#[verifier::reject_recursive_types(R)]
pub struct ExStmtAssert<R>(rustpython_ast::StmtAssert<R>);

/// `rustpython_ast::StmtImport` with its fields.
#[verifier::external_type_specification]
#[verifier::reject_recursive_types(R)]
pub struct ExStmtImport<R>(rustpython_ast::StmtImport<R>);

/// `rustpython_ast::StmtImportFrom` with its fields.
#[verifier::external_type_specification]
#[verifier::reject_recursive_types(R)]
pub struct ExStmtImportFrom<R>(rustpython_ast::StmtImportFrom<R>);

/// `rustpython_ast::StmtGlobal` with its fields.
#[verifier::external_type_specification]
#[verifier::reject_recursive_types(R)]
pub struct ExStmtGlobal<R>(rustpython_ast::StmtGlobal<R>);

/// `rustpython_ast::StmtNonlocal` with its fields.
#[verifier::external_type_specification]
#[verifier::reject_recursive_types(R)]
pub struct ExStmtNonlocal<R>(rustpython_ast::StmtNonlocal<R>);

/// `rustpython_ast::StmtExpr` with its fields.
#[verifier::external_type_specification]
#[verifier::reject_recursive_types(R)]
pub struct ExStmtExpr<R>(rustpython_ast::StmtExpr<R>);

/// `rustpython_ast::StmtPass` with its fields.
#[verifier::external_type_specification]
#[verifier::reject_recursive_types(R)]
pub struct ExStmtPass<R>(rustpython_ast::StmtPass<R>);

/// `rustpython_ast::StmtBreak` with its fields.
#[verifier::external_type_specification]
#[verifier::reject_recursive_types(R)]
pub struct ExStmtBreak<R>(rustpython_ast::StmtBreak<R>);

/// `rustpython_ast::StmtContinue` with its fields.
#[verifier::external_type_specification]
#[verifier::reject_recursive_types(R)]
pub struct ExStmtContinue<R>(rustpython_ast::StmtContinue<R>);

/// `rustpython_ast::Expr` with its variants.
#[verifier::external_type_specification]
#[verifier::reject_recursive_types(R)]
pub struct ExExpr<R>(rustpython_ast::Expr<R>);

/// `rustpython_ast::ExprBoolOp` with its fields.
#[verifier::external_type_specification]
#[verifier::reject_recursive_types(R)]
pub struct ExExprBoolOp<R>(rustpython_ast::ExprBoolOp<R>);

/// `rustpython_ast::ExprNamedExpr` with its fields.
#[verifier::external_type_specification]
#[verifier::reject_recursive_types(R)]
pub struct ExExprNamedExpr<R>(rustpython_ast::ExprNamedExpr<R>);

/// `rustpython_ast::ExprBinOp` with its fields.
#[verifier::external_type_specification]
#[verifier::reject_recursive_types(R)]
pub struct ExExprBinOp<R>(rustpython_ast::ExprBinOp<R>);

/// `rustpython_ast::ExprUnaryOp` with its fields.
#[verifier::external_type_specification]
#[verifier::reject_recursive_types(R)]
pub struct ExExprUnaryOp<R>(rustpython_ast::ExprUnaryOp<R>);

/// `rustpython_ast::ExprLambda` with its fields.
#[verifier::external_type_specification]
#[verifier::reject_recursive_types(R)]
pub struct ExExprLambda<R>(rustpython_ast::ExprLambda<R>);

/// `rustpython_ast::ExprIfExp` with its fields.
#[verifier::external_type_specification]
#[verifier::reject_recursive_types(R)]
pub struct ExExprIfExp<R>(rustpython_ast::ExprIfExp<R>);

/// `rustpython_ast::ExprDict` with its fields.
#[verifier::external_type_specification]
#[verifier::reject_recursive_types(R)]
pub struct ExExprDict<R>(rustpython_ast::ExprDict<R>);

/// `rustpython_ast::ExprSet` with its fields.
#[verifier::external_type_specification]
#[verifier::reject_recursive_types(R)]
pub struct ExExprSet<R>(rustpython_ast::ExprSet<R>);

/// `rustpython_ast::ExprListComp` with its fields.
#[verifier::external_type_specification]
#[verifier::reject_recursive_types(R)]
pub struct ExExprListComp<R>(rustpython_ast::ExprListComp<R>);

/// `rustpython_ast::ExprSetComp` with its fields.
#[verifier::external_type_specification]
#[verifier::reject_recursive_types(R)]
pub struct ExExprSetComp<R>(rustpython_ast::ExprSetComp<R>);

/// `rustpython_ast::ExprDictComp` with its fields.
#[verifier::external_type_specification]
#[verifier::reject_recursive_types(R)]
pub struct ExExprDictComp<R>(rustpython_ast::ExprDictComp<R>);

/// `rustpython_ast::ExprGeneratorExp` with its fields.
#[verifier::external_type_specification]
#[verifier::reject_recursive_types(R)]
pub struct ExExprGeneratorExp<R>(rustpython_ast::ExprGeneratorExp<R>);

/// `rustpython_ast::ExprAwait` with its fields.
#[verifier::external_type_specification]
#[verifier::reject_recursive_types(R)]
pub struct ExExprAwait<R>(rustpython_ast::ExprAwait<R>);

/// `rustpython_ast::ExprYield` with its fields.
#[verifier::external_type_specification]
#[verifier::reject_recursive_types(R)]
pub struct ExExprYield<R>(rustpython_ast::ExprYield<R>);

/// `rustpython_ast::ExprYieldFrom` with its fields.
#[verifier::external_type_specification]
#[verifier::reject_recursive_types(R)]
pub struct ExExprYieldFrom<R>(rustpython_ast::ExprYieldFrom<R>);

/// `rustpython_ast::ExprCompare` with its fields.
#[verifier::external_type_specification]
#[verifier::reject_recursive_types(R)]
pub struct ExExprCompare<R>(rustpython_ast::ExprCompare<R>);

/// `rustpython_ast::ExprCall` with its fields.
#[verifier::external_type_specification]
#[verifier::reject_recursive_types(R)]
pub struct ExExprCall<R>(rustpython_ast::ExprCall<R>);

/// `rustpython_ast::ExprFormattedValue` with its fields.
#[verifier::external_type_specification]
#[verifier::reject_recursive_types(R)]
pub struct ExExprFormattedValue<R>(rustpython_ast::ExprFormattedValue<R>);

/// `rustpython_ast::ExprJoinedStr` with its fields.
#[verifier::external_type_specification]
#[verifier::reject_recursive_types(R)]
pub struct ExExprJoinedStr<R>(rustpython_ast::ExprJoinedStr<R>);

/// `rustpython_ast::ExprConstant` with its fields.
#[verifier::external_type_specification]
#[verifier::reject_recursive_types(R)]
pub struct ExExprConstant<R>(rustpython_ast::ExprConstant<R>);

/// `rustpython_ast::ExprAttribute` with its fields.
#[verifier::external_type_specification]
#[verifier::reject_recursive_types(R)]
pub struct ExExprAttribute<R>(rustpython_ast::ExprAttribute<R>);

/// `rustpython_ast::ExprSubscript` with its fields.
#[verifier::external_type_specification]
#[verifier::reject_recursive_types(R)]
pub struct ExExprSubscript<R>(rustpython_ast::ExprSubscript<R>);

/// `rustpython_ast::ExprStarred` with its fields.
#[verifier::external_type_specification]
#[verifier::reject_recursive_types(R)]
pub struct ExExprStarred<R>(rustpython_ast::ExprStarred<R>);

/// `rustpython_ast::ExprName` with its fields.
#[verifier::external_type_specification]
#[verifier::reject_recursive_types(R)]
pub struct ExExprName<R>(rustpython_ast::ExprName<R>);

/// `rustpython_ast::ExprList` with its fields.
#[verifier::external_type_specification]
#[verifier::reject_recursive_types(R)]
pub struct ExExprList<R>(rustpython_ast::ExprList<R>);

/// `rustpython_ast::ExprTuple` with its fields.
#[verifier::external_type_specification]
#[verifier::reject_recursive_types(R)]
pub struct ExExprTuple<R>(rustpython_ast::ExprTuple<R>);

/// `rustpython_ast::ExprSlice` with its fields.
#[verifier::external_type_specification]
#[verifier::reject_recursive_types(R)]
pub struct ExExprSlice<R>(rustpython_ast::ExprSlice<R>);

/// `rustpython_ast::ExprContext` with its variants.
#[verifier::external_type_specification]
pub struct ExExprContext(rustpython_ast::ExprContext);

/// `rustpython_ast::BoolOp` with its variants.
#[verifier::external_type_specification]
pub struct ExBoolOp(rustpython_ast::BoolOp);

/// `rustpython_ast::Operator` with its variants.
#[verifier::external_type_specification]
pub struct ExOperator(rustpython_ast::Operator);

/// `rustpython_ast::UnaryOp` with its variants.
#[verifier::external_type_specification]
pub struct ExUnaryOp(rustpython_ast::UnaryOp);

/// `rustpython_ast::CmpOp` with its variants.
#[verifier::external_type_specification]
pub struct ExCmpOp(rustpython_ast::CmpOp);

/// `rustpython_ast::Comprehension` with its fields.
#[verifier::external_type_specification]
#[verifier::reject_recursive_types(R)]
pub struct ExComprehension<R>(rustpython_ast::Comprehension<R>);

/// `rustpython_ast::ExceptHandler` with its variants.
#[verifier::external_type_specification]
#[verifier::reject_recursive_types(R)]
pub struct ExExceptHandler<R>(rustpython_ast::ExceptHandler<R>);

/// `rustpython_ast::ExceptHandlerExceptHandler` with its fields.
#[verifier::external_type_specification]
#[verifier::reject_recursive_types(R)]
pub struct ExExceptHandlerExceptHandler<R>(rustpython_ast::ExceptHandlerExceptHandler<R>);

/// `rustpython_ast::Arg` with its fields.
#[verifier::external_type_specification]
#[verifier::reject_recursive_types(R)]
pub struct ExArg<R>(rustpython_ast::Arg<R>);

/// `rustpython_ast::Keyword` with its fields.
#[verifier::external_type_specification]
#[verifier::reject_recursive_types(R)]
pub struct ExKeyword<R>(rustpython_ast::Keyword<R>);

/// `rustpython_ast::Alias` with its fields.
#[verifier::external_type_specification]
#[verifier::reject_recursive_types(R)]
pub struct ExAlias<R>(rustpython_ast::Alias<R>);

/// `rustpython_ast::WithItem` with its fields.
#[verifier::external_type_specification]
#[verifier::reject_recursive_types(R)]
pub struct ExWithItem<R>(rustpython_ast::WithItem<R>);

/// `rustpython_ast::MatchCase` with its fields.
#[verifier::external_type_specification]
#[verifier::reject_recursive_types(R)]
pub struct ExMatchCase<R>(rustpython_ast::MatchCase<R>);

/// `rustpython_ast::Pattern` with its variants.
#[verifier::external_type_specification]
#[verifier::reject_recursive_types(R)]
pub struct ExPattern<R>(rustpython_ast::Pattern<R>);

/// `rustpython_ast::PatternMatchValue` with its fields.
#[verifier::external_type_specification]
#[verifier::reject_recursive_types(R)]
pub struct ExPatternMatchValue<R>(rustpython_ast::PatternMatchValue<R>);

/// `rustpython_ast::PatternMatchSingleton` with its fields.
#[verifier::external_type_specification]
#[verifier::reject_recursive_types(R)]
pub struct ExPatternMatchSingleton<R>(rustpython_ast::PatternMatchSingleton<R>);

/// `rustpython_ast::PatternMatchSequence` with its fields.
#[verifier::external_type_specification]
#[verifier::reject_recursive_types(R)]
pub struct ExPatternMatchSequence<R>(rustpython_ast::PatternMatchSequence<R>);

/// `rustpython_ast::PatternMatchMapping` with its fields.
#[verifier::external_type_specification]
#[verifier::reject_recursive_types(R)]
pub struct ExPatternMatchMapping<R>(rustpython_ast::PatternMatchMapping<R>);

/// `rustpython_ast::PatternMatchClass` with its fields.
#[verifier::external_type_specification]
#[verifier::reject_recursive_types(R)]
pub struct ExPatternMatchClass<R>(rustpython_ast::PatternMatchClass<R>);

/// `rustpython_ast::PatternMatchStar` with its fields.
#[verifier::external_type_specification]
#[verifier::reject_recursive_types(R)]
pub struct ExPatternMatchStar<R>(rustpython_ast::PatternMatchStar<R>);

/// `rustpython_ast::PatternMatchAs` with its fields.
#[verifier::external_type_specification]
#[verifier::reject_recursive_types(R)]
pub struct ExPatternMatchAs<R>(rustpython_ast::PatternMatchAs<R>);

/// `rustpython_ast::PatternMatchOr` with its fields.
#[verifier::external_type_specification]
#[verifier::reject_recursive_types(R)]
pub struct ExPatternMatchOr<R>(rustpython_ast::PatternMatchOr<R>);

/// `rustpython_ast::TypeIgnore` with its variants.
#[verifier::external_type_specification]
#[verifier::reject_recursive_types(R)]
pub struct ExTypeIgnore<R>(rustpython_ast::TypeIgnore<R>);

/// `rustpython_ast::TypeIgnoreTypeIgnore` with its fields.
#[verifier::external_type_specification]
#[verifier::reject_recursive_types(R)]
pub struct ExTypeIgnoreTypeIgnore<R>(rustpython_ast::TypeIgnoreTypeIgnore<R>);

/// `rustpython_ast::TypeParam` with its variants.
#[verifier::external_type_specification]
#[verifier::reject_recursive_types(R)]
pub struct ExTypeParam<R>(rustpython_ast::TypeParam<R>);

/// `rustpython_ast::TypeParamTypeVar` with its fields.
#[verifier::external_type_specification]
#[verifier::reject_recursive_types(R)]
pub struct ExTypeParamTypeVar<R>(rustpython_ast::TypeParamTypeVar<R>);

/// `rustpython_ast::TypeParamParamSpec` with its fields.
#[verifier::external_type_specification]
#[verifier::reject_recursive_types(R)]
pub struct ExTypeParamParamSpec<R>(rustpython_ast::TypeParamParamSpec<R>);

/// `rustpython_ast::TypeParamTypeVarTuple` with its fields.
#[verifier::external_type_specification]
#[verifier::reject_recursive_types(R)]
pub struct ExTypeParamTypeVarTuple<R>(rustpython_ast::TypeParamTypeVarTuple<R>);

/// `rustpython_ast::Arguments` with its fields.
#[verifier::external_type_specification]
#[verifier::reject_recursive_types(R)]
pub struct ExArguments<R>(rustpython_ast::Arguments<R>);

/// `rustpython_ast::ArgWithDefault` with its fields.
#[verifier::external_type_specification]
#[verifier::reject_recursive_types(R)]
pub struct ExArgWithDefault<R>(rustpython_ast::ArgWithDefault<R>);

/// `rustpython_ast::Constant` with its variants.
#[verifier::external_type_specification]
pub struct ExConstant(rustpython_ast::Constant);

/// `rustpython_ast::ConversionFlag` with its variants.
#[verifier::external_type_specification]
pub struct ExConversionFlag(rustpython_ast::ConversionFlag);

// ── Closed types ────────────────────────────────────────────────────────────

/// `rustpython_ast::Identifier`: a name; `name_of` reads its text.
#[verifier::external_type_specification]
#[verifier::external_body]
pub struct ExIdentifier(rustpython_ast::Identifier);

/// `rustpython_ast::Int`: a small unsigned number; `int_of` reads it.
#[verifier::external_type_specification]
#[verifier::external_body]
pub struct ExInt(rustpython_ast::Int);

/// `rustpython_ast::EmptyRange`: the range that nodes without a position carry.
#[verifier::external_type_specification]
#[verifier::external_body]
#[verifier::reject_recursive_types(R)]
pub struct ExEmptyRange<R>(rustpython_ast::EmptyRange<R>);

/// `rustpython_ast::text_size::TextRange`: where a node stands in its source;
/// `start_of` and `end_of` read it.
#[verifier::external_type_specification]
#[verifier::external_body]
pub struct ExTextRange(rustpython_ast::text_size::TextRange);

/// `rustpython_ast::bigint::BigInt`: an integer literal; `integer_digits` reads it.
#[verifier::external_type_specification]
#[verifier::external_body]
pub struct ExBigInt(rustpython_ast::bigint::BigInt);

// ── Names ───────────────────────────────────────────────────────────────────

/// The text of a name.
pub uninterp spec fn identifier_text(id: Identifier) -> Seq<char>;

/// `Identifier::as_str`: the text that the identifier wraps.
#[verifier::external_body]
pub(crate) fn name_of(id: &Identifier) -> (r: &str)
    ensures
        r@ == identifier_text(*id),
{
    id.as_str()
}

/// The value of a small number.
pub uninterp spec fn int_value(n: Int) -> usize;

/// `Int::to_usize`: the number that the value wraps.
#[verifier::external_body]
pub(crate) fn int_of(n: &Int) -> (r: usize)
    ensures
        r == int_value(*n),
{
    n.to_usize()
}

// ── Positions ───────────────────────────────────────────────────────────────

/// The byte offset at which a range begins.
pub uninterp spec fn range_start(r: TextRange) -> u32;

/// The byte offset at which a range ends.
pub uninterp spec fn range_end(r: TextRange) -> u32;

/// `TextRange::start`: the offset at which the range begins.
#[verifier::external_body]
pub(crate) fn start_of(r: &TextRange) -> (p: u32)
    ensures
        p == range_start(*r),
{
    r.start().into()
}

/// `TextRange::end`: the offset at which the range ends. A range is only ever
/// built with its end at or behind its start.
#[verifier::external_body]
pub(crate) fn end_of(r: &TextRange) -> (p: u32)
    ensures
        p == range_end(*r),
        range_start(*r) <= p,
{
    r.end().into()
}

// ── Literals ────────────────────────────────────────────────────────────────

/// An integer literal in decimal.
pub uninterp spec fn integer_text(i: BigInt) -> Seq<char>;

/// `<BigInt as Display>`: the integer in decimal.
#[verifier::external_body]
pub(crate) fn integer_digits(i: &BigInt) -> (r: String)
    ensures
        r@ == integer_text(*i),
{
    i.to_string()
}

/// The floating-point numbers of a constant as `{:?}` prints them: one of a float, the
/// real and the imaginary one of a complex number, none of other constants.
pub uninterp spec fn float_texts(c: Constant) -> Seq<Seq<char>>;

/// `<f64 as Debug>` on the floating-point numbers of a constant: each is the shortest
/// decimal that reads back as the same number, with a fraction or an exponent.
#[verifier::external_body]
pub(crate) fn float_digits(c: &Constant) -> (r: Vec<String>)
    ensures
        texts(r@) == float_texts(*c),
        r@.len() == match c {
            Constant::Float(_) => 1nat,
            Constant::Complex { .. } => 2nat,
            _ => 0nat,
        },
{
    match c {
        Constant::Float(f) => vec![format!("{f:?}")],
        Constant::Complex { real: a, imag: b } => vec![format!("{a:?}"), format!("{b:?}")],
        _ => vec![],
    }
}

// ── Parsing ─────────────────────────────────────────────────────────────────

/// What parsing a module's source gives: its tree, or what is wrong with it.
pub uninterp spec fn parsed(source: Seq<char>, path: Seq<char>) -> Result<Mod, Seq<char>>;

/// `rustpython_parser::parse` in module mode; a `ParseError` is given as the text
/// that it displays. Offsets are 32-bit, so the source has to fit them.
#[verifier::external_body]
pub(crate) fn parse(source: &str, path: &str) -> (r: Result<Mod, String>)
    requires
        source.spec_bytes().len() <= u32::MAX,
    ensures
        match r {
            Ok(m) => parsed(source@, path@) == Ok::<Mod, Seq<char>>(m),
            Err(e) => parsed(source@, path@) == Err::<Mod, Seq<char>>(e@),
        },
{
    rustpython_parser::parse(source, rustpython_parser::Mode::Module, path).map_err(|e| e.to_string())
}

} // verus!
