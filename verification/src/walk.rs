//! The order in which a syntax tree is read: each node before its parts, the parts
//! in the order of their fields.
//!
//! A check looks at the visits of such a walk. What a walk goes into is set by a
//! `Coverage`; where a visit stands (how deep, in how many blocks, in which class)
//! is part of the visit.

use crate::syntax::{identifier_text, name_of};
use crate::text::same;
use rustpython_ast::{
    Arg, ArgWithDefault, Arguments, Comprehension, ExceptHandler, ExceptHandlerExceptHandler, Expr,
    Identifier, Keyword, MatchCase, Pattern, Stmt, TypeParam, WithItem,
};
use vstd::prelude::*;

verus! {

// ── What a walk goes into ───────────────────────────────────────────────────

/// Which keyword arguments a walk goes into.
#[derive(Clone, Copy)]
pub enum KeywordValues {
    /// None of them.
    Skipped,
    /// Those whose value is not a literal.
    Computed,
    /// All of them.
    All,
}

/// Which parts of a tree a walk goes into. Statements, exception handlers, match cases
/// and the operands of expressions are always walked.
#[derive(Clone, Copy)]
pub struct Coverage {
    /// The annotations and defaults of parameters.
    pub arguments: bool,
    /// The targets, iterables and conditions of comprehensions.
    pub comprehensions: bool,
    /// The values of keyword arguments.
    pub keywords: KeywordValues,
    /// The context managers of `with` statements.
    pub with_items: bool,
    /// Function definitions.
    pub functions: bool,
    /// Class definitions.
    pub classes: bool,
    /// Lambda expressions.
    pub lambdas: bool,
    /// Blocks guarded by `if TYPE_CHECKING:`.
    pub type_checking: bool,
    /// The name `dict` at the head of `dict[...]`.
    pub dict_heads: bool,
}

/// Statements and plain operands, through every definition: parameters,
/// comprehensions, keyword arguments and context managers are left out.
#[verifier::allow_in_spec]
pub fn statements() -> Coverage
    returns
        (Coverage {
            arguments: false,
            comprehensions: false,
            keywords: KeywordValues::Skipped,
            with_items: false,
            functions: true,
            classes: true,
            lambdas: true,
            type_checking: true,
            dict_heads: true,
        }),
{
    Coverage {
        arguments: false,
        comprehensions: false,
        keywords: KeywordValues::Skipped,
        with_items: false,
        functions: true,
        classes: true,
        lambdas: true,
        type_checking: true,
        dict_heads: true,
    }
}

/// Every statement and every expression.
#[verifier::allow_in_spec]
pub fn expressions() -> Coverage
    returns
        (Coverage {
            arguments: true,
            comprehensions: true,
            keywords: KeywordValues::All,
            with_items: true,
            functions: true,
            classes: true,
            lambdas: true,
            type_checking: true,
            dict_heads: true,
        }),
{
    Coverage {
        arguments: true,
        comprehensions: true,
        keywords: KeywordValues::All,
        with_items: true,
        functions: true,
        classes: true,
        lambdas: true,
        type_checking: true,
        dict_heads: true,
    }
}

// ── Visits ──────────────────────────────────────────────────────────────────

/// A node of the tree.
#[derive(Clone, Copy)]
pub enum Node<'a> {
    Stmt(&'a Stmt),
    Expr(&'a Expr),
    Handler(&'a ExceptHandlerExceptHandler),
    Arguments(&'a Arguments),
    Comprehension(&'a Comprehension),
    Keyword(&'a Keyword),
    WithItem(&'a WithItem),
    Case(&'a MatchCase),
}

/// Where a walk stands: the number of nodes above, the number of blocks around,
/// and the name of the nearest class around.
pub struct At<'a> {
    pub depth: nat,
    pub nesting: nat,
    pub class: Option<&'a Identifier>,
}

/// A node and where the walk found it. A block counts itself among the blocks
/// around it.
pub struct Seen<'a> {
    pub node: Node<'a>,
    pub depth: nat,
    pub nesting: nat,
    pub class: Option<&'a Identifier>,
}

/// Where a walk stands, as machine integers.
#[derive(Clone, Copy)]
pub struct Place<'a> {
    pub depth: usize,
    pub nesting: usize,
    pub class: Option<&'a Identifier>,
}

impl<'a> Place<'a> {
    pub open spec fn view(self) -> At<'a> {
        At { depth: self.depth as nat, nesting: self.nesting as nat, class: self.class }
    }

    /// No deeper than the number of visits made so far.
    pub open spec fn fits(self, visits: nat) -> bool {
        self.depth <= visits && self.nesting <= visits
    }
}

/// A node and where the walk found it, as machine integers.
pub struct Visit<'a> {
    pub node: Node<'a>,
    pub depth: usize,
    pub nesting: usize,
    pub class: Option<&'a Identifier>,
}

impl<'a> Visit<'a> {
    pub open spec fn view(self) -> Seen<'a> {
        Seen {
            node: self.node,
            depth: self.depth as nat,
            nesting: self.nesting as nat,
            class: self.class,
        }
    }
}

/// A node found at `x`.
pub open spec fn found<'a>(node: Node<'a>, x: At<'a>) -> Seen<'a> {
    Seen { node, depth: x.depth, nesting: x.nesting, class: x.class }
}

/// What a list of visits saw.
pub open spec fn seen<'a>(v: Seq<Visit<'a>>) -> Seq<Seen<'a>> {
    v.map_values(|x: Visit<'a>| x@)
}

/// The beginning of a walk.
pub open spec fn outset<'a>() -> At<'a> {
    At { depth: 0, nesting: 0, class: None }
}

/// Whether a statement is a block that counts as a level of nesting.
pub open spec fn is_block(s: &Stmt) -> bool {
    s is If || s is While || s is For || s is AsyncFor || s is With || s is Try
}

/// Whether a condition is the name or the attribute `TYPE_CHECKING`.
pub open spec fn is_type_checking(test: &Expr) -> bool {
    match test {
        Expr::Name(n) => identifier_text(n.id) == "TYPE_CHECKING"@,
        Expr::Attribute(a) => identifier_text(a.attr) == "TYPE_CHECKING"@,
        _ => false,
    }
}

/// Whether a walk stays out of a statement's parts.
pub open spec fn stops_at_stmt(s: &Stmt, c: Coverage) -> bool {
    match s {
        Stmt::FunctionDef(_) => !c.functions,
        Stmt::AsyncFunctionDef(_) => !c.functions,
        Stmt::ClassDef(_) => !c.classes,
        Stmt::If(n) => !c.type_checking && is_type_checking(&n.test),
        _ => false,
    }
}

/// Whether an expression is the name `dict`.
pub open spec fn is_dict_name(e: &Expr) -> bool {
    e matches Expr::Name(n) && identifier_text(n.id) == "dict"@
}

/// Whether a walk goes into a keyword argument.
pub open spec fn enters_keyword(k: &Keyword, c: Coverage) -> bool {
    match c.keywords {
        KeywordValues::Skipped => false,
        KeywordValues::Computed => !(k.value is Constant),
        KeywordValues::All => true,
    }
}

/// Where a statement stands, a block within itself.
pub open spec fn at_stmt<'a>(s: &'a Stmt, x: At<'a>) -> At<'a> {
    if is_block(s) {
        within(x)
    } else {
        x
    }
}

/// Where the parts of a statement stand.
pub open spec fn inside<'a>(s: &'a Stmt, x: At<'a>) -> At<'a> {
    At {
        depth: x.depth + 1,
        nesting: at_stmt(s, x).nesting,
        class: match s {
            Stmt::ClassDef(n) => Some(&n.name),
            _ => x.class,
        },
    }
}

/// One node further down.
pub open spec fn below<'a>(x: At<'a>) -> At<'a> {
    At { depth: x.depth + 1, nesting: x.nesting, class: x.class }
}

/// One block further in.
pub open spec fn within<'a>(x: At<'a>) -> At<'a> {
    At { depth: x.depth, nesting: x.nesting + 1, class: x.class }
}

// ── The walk ────────────────────────────────────────────────────────────────

/// A statement and its parts.
pub open spec fn walk_stmt<'a>(s: &'a Stmt, c: Coverage, x: At<'a>) -> Seq<Seen<'a>>
    decreases s, 1nat,
{
    seq![found(Node::Stmt(s), at_stmt(s, x))] + if stops_at_stmt(s, c) {
        seq![]
    } else {
        stmt_parts(s, c, inside(s, x))
    }
}

/// The parts of a statement, which stand at `x`.
pub open spec fn stmt_parts<'a>(s: &'a Stmt, c: Coverage, x: At<'a>) -> Seq<Seen<'a>>
    decreases s, 0nat,
{
    match s {
        Stmt::FunctionDef(n) => walk_arguments(&n.args, c, x) + walk_stmts(n.body@, c, x) + walk_exprs(n.decorator_list@, c, x) + walk_opt_expr(n.returns, c, x) + walk_type_params(n.type_params@, c, x),
        Stmt::AsyncFunctionDef(n) => walk_arguments(&n.args, c, x) + walk_stmts(n.body@, c, x) + walk_exprs(n.decorator_list@, c, x) + walk_opt_expr(n.returns, c, x) + walk_type_params(n.type_params@, c, x),
        Stmt::ClassDef(n) => walk_exprs(n.bases@, c, x) + walk_keywords(n.keywords@, c, x) + walk_stmts(n.body@, c, x) + walk_exprs(n.decorator_list@, c, x) + walk_type_params(n.type_params@, c, x),
        Stmt::Return(n) => walk_opt_expr(n.value, c, x),
        Stmt::Delete(n) => walk_exprs(n.targets@, c, x),
        Stmt::Assign(n) => walk_exprs(n.targets@, c, x) + walk_expr(&n.value, c, x),
        Stmt::TypeAlias(n) => walk_expr(&n.name, c, x) + walk_type_params(n.type_params@, c, x) + walk_expr(&n.value, c, x),
        Stmt::AugAssign(n) => walk_expr(&n.target, c, x) + walk_expr(&n.value, c, x),
        Stmt::AnnAssign(n) => walk_expr(&n.target, c, x) + walk_expr(&n.annotation, c, x) + walk_opt_expr(n.value, c, x),
        Stmt::For(n) => walk_expr(&n.target, c, x) + walk_expr(&n.iter, c, x) + walk_stmts(n.body@, c, x) + walk_stmts(n.orelse@, c, x),
        Stmt::AsyncFor(n) => walk_expr(&n.target, c, x) + walk_expr(&n.iter, c, x) + walk_stmts(n.body@, c, x) + walk_stmts(n.orelse@, c, x),
        Stmt::While(n) => walk_expr(&n.test, c, x) + walk_stmts(n.body@, c, x) + walk_stmts(n.orelse@, c, x),
        Stmt::If(n) => walk_expr(&n.test, c, x) + walk_stmts(n.body@, c, x) + walk_stmts(n.orelse@, c, x),
        Stmt::With(n) => walk_with_items(n.items@, c, x) + walk_stmts(n.body@, c, x),
        Stmt::AsyncWith(n) => walk_with_items(n.items@, c, x) + walk_stmts(n.body@, c, x),
        Stmt::Match(n) => walk_expr(&n.subject, c, x) + walk_cases(n.cases@, c, x),
        Stmt::Raise(n) => walk_opt_expr(n.exc, c, x) + walk_opt_expr(n.cause, c, x),
        Stmt::Try(n) => walk_stmts(n.body@, c, x) + walk_handlers(n.handlers@, c, x) + walk_stmts(n.orelse@, c, x) + walk_stmts(n.finalbody@, c, x),
        Stmt::TryStar(n) => walk_stmts(n.body@, c, x) + walk_handlers(n.handlers@, c, x) + walk_stmts(n.orelse@, c, x) + walk_stmts(n.finalbody@, c, x),
        Stmt::Assert(n) => walk_expr(&n.test, c, x) + walk_opt_expr(n.msg, c, x),
        Stmt::Expr(n) => walk_expr(&n.value, c, x),
        _ => seq![],
    }
}

/// A list of statements.
pub open spec fn walk_stmts<'a>(s: Seq<Stmt>, c: Coverage, x: At<'a>) -> Seq<Seen<'a>>
    decreases s, 0nat,
{
    if s.len() == 0 {
        seq![]
    } else {
        walk_stmts(s.drop_last(), c, x) + walk_stmt(&s.last(), c, x)
    }
}

/// An exception handler: a block of its own.
pub open spec fn walk_handler<'a>(h: &'a ExceptHandler, c: Coverage, x: At<'a>) -> Seq<Seen<'a>>
    decreases h, 0nat,
{
    match h {
        ExceptHandler::ExceptHandler(n) => {
            seq![found(Node::Handler(n), within(x))] + walk_opt_expr(n.type_, c, within(x)) + walk_stmts(n.body@, c, within(x))
        },
    }
}

/// A list of exception handlers.
pub open spec fn walk_handlers<'a>(s: Seq<ExceptHandler>, c: Coverage, x: At<'a>) -> Seq<Seen<'a>>
    decreases s, 0nat,
{
    if s.len() == 0 {
        seq![]
    } else {
        walk_handlers(s.drop_last(), c, x) + walk_handler(&s.last(), c, x)
    }
}

/// An expression and its operands.
pub open spec fn walk_expr<'a>(e: &'a Expr, c: Coverage, x: At<'a>) -> Seq<Seen<'a>>
    decreases e, 1nat,
{
    seq![found(Node::Expr(e), x)]
        + expr_parts(e, c, below(x))
}

/// The operands of an expression, which stand at `x`.
pub open spec fn expr_parts<'a>(e: &'a Expr, c: Coverage, x: At<'a>) -> Seq<Seen<'a>>
    decreases e, 0nat,
{
    match e {
        Expr::Lambda(n) => if c.lambdas {
            walk_arguments(&n.args, c, x) + walk_expr(&n.body, c, x)
        } else {
            seq![]
        },
        Expr::Subscript(n) => if !c.dict_heads && is_dict_name(&n.value) {
            walk_expr(&n.slice, c, x)
        } else {
            walk_expr(&n.value, c, x) + walk_expr(&n.slice, c, x)
        },
        Expr::BoolOp(n) => walk_exprs(n.values@, c, x),
        Expr::NamedExpr(n) => walk_expr(&n.target, c, x) + walk_expr(&n.value, c, x),
        Expr::BinOp(n) => walk_expr(&n.left, c, x) + walk_expr(&n.right, c, x),
        Expr::UnaryOp(n) => walk_expr(&n.operand, c, x),
        Expr::IfExp(n) => walk_expr(&n.test, c, x) + walk_expr(&n.body, c, x) + walk_expr(&n.orelse, c, x),
        Expr::Dict(n) => walk_opt_exprs(n.keys@, c, x) + walk_exprs(n.values@, c, x),
        Expr::Set(n) => walk_exprs(n.elts@, c, x),
        Expr::ListComp(n) => walk_expr(&n.elt, c, x) + walk_comprehensions(n.generators@, c, x),
        Expr::SetComp(n) => walk_expr(&n.elt, c, x) + walk_comprehensions(n.generators@, c, x),
        Expr::DictComp(n) => walk_expr(&n.key, c, x) + walk_expr(&n.value, c, x) + walk_comprehensions(n.generators@, c, x),
        Expr::GeneratorExp(n) => walk_expr(&n.elt, c, x) + walk_comprehensions(n.generators@, c, x),
        Expr::Await(n) => walk_expr(&n.value, c, x),
        Expr::Yield(n) => walk_opt_expr(n.value, c, x),
        Expr::YieldFrom(n) => walk_expr(&n.value, c, x),
        Expr::Compare(n) => walk_expr(&n.left, c, x) + walk_exprs(n.comparators@, c, x),
        Expr::Call(n) => walk_expr(&n.func, c, x) + walk_exprs(n.args@, c, x) + walk_keywords(n.keywords@, c, x),
        Expr::FormattedValue(n) => walk_expr(&n.value, c, x) + walk_opt_expr(n.format_spec, c, x),
        Expr::JoinedStr(n) => walk_exprs(n.values@, c, x),
        Expr::Attribute(n) => walk_expr(&n.value, c, x),
        Expr::Starred(n) => walk_expr(&n.value, c, x),
        Expr::List(n) => walk_exprs(n.elts@, c, x),
        Expr::Tuple(n) => walk_exprs(n.elts@, c, x),
        Expr::Slice(n) => walk_opt_expr(n.lower, c, x) + walk_opt_expr(n.upper, c, x) + walk_opt_expr(n.step, c, x),
        _ => seq![],
    }
}

/// An expression that may be absent.
pub open spec fn walk_opt_expr<'a>(e: Option<Box<Expr>>, c: Coverage, x: At<'a>) -> Seq<Seen<'a>>
    decreases e, 0nat,
{
    match e {
        Some(e) => walk_expr(&*e, c, x),
        None => seq![],
    }
}

/// A list of expressions.
pub open spec fn walk_exprs<'a>(s: Seq<Expr>, c: Coverage, x: At<'a>) -> Seq<Seen<'a>>
    decreases s, 0nat,
{
    if s.len() == 0 {
        seq![]
    } else {
        walk_exprs(s.drop_last(), c, x) + walk_expr(&s.last(), c, x)
    }
}

/// A list of expressions, some of which may be absent.
pub open spec fn walk_opt_exprs<'a>(s: Seq<Option<Expr>>, c: Coverage, x: At<'a>) -> Seq<Seen<'a>>
    decreases s, 0nat,
{
    if s.len() == 0 {
        seq![]
    } else {
        walk_opt_exprs(s.drop_last(), c, x) + (match s.last() {
            Some(e) => walk_expr(&e, c, x),
            None => seq![],
        })
    }
}

/// The parameters of a function or a lambda.
pub open spec fn walk_arguments<'a>(a: &'a Arguments, c: Coverage, x: At<'a>) -> Seq<Seen<'a>>
    decreases a, 0nat,
{
    if c.arguments {
        seq![found(Node::Arguments(a), x)]
            + walk_params(a.posonlyargs@, c, below(x)) + walk_params(a.args@, c, below(x))
            + walk_params(a.kwonlyargs@, c, below(x)) + walk_opt_arg(a.vararg, c, below(x))
            + walk_opt_arg(a.kwarg, c, below(x))
    } else {
        seq![]
    }
}

/// The annotation of a parameter that may be absent.
pub open spec fn walk_opt_arg<'a>(a: Option<Box<Arg>>, c: Coverage, x: At<'a>) -> Seq<Seen<'a>>
    decreases a, 0nat,
{
    match a {
        Some(a) => walk_opt_expr(a.annotation, c, x),
        None => seq![],
    }
}

/// The annotations and defaults of a list of parameters.
pub open spec fn walk_params<'a>(s: Seq<ArgWithDefault>, c: Coverage, x: At<'a>) -> Seq<Seen<'a>>
    decreases s, 0nat,
{
    if s.len() == 0 {
        seq![]
    } else {
        walk_params(s.drop_last(), c, x) + walk_opt_expr(s.last().def.annotation, c, x)
            + walk_opt_expr(s.last().default, c, x)
    }
}

/// One `for` clause of a comprehension.
pub open spec fn walk_comprehension<'a>(n: &'a Comprehension, c: Coverage, x: At<'a>) -> Seq<
    Seen<'a>,
>
    decreases n, 0nat,
{
    if c.comprehensions {
        seq![found(Node::Comprehension(n), x)]
            + walk_expr(&n.target, c, below(x)) + walk_expr(&n.iter, c, below(x)) + walk_exprs(
            n.ifs@,
            c,
            below(x),
        )
    } else {
        seq![]
    }
}

/// The clauses of a comprehension.
pub open spec fn walk_comprehensions<'a>(s: Seq<Comprehension>, c: Coverage, x: At<'a>) -> Seq<Seen<'a>>
    decreases s, 0nat,
{
    if s.len() == 0 {
        seq![]
    } else {
        walk_comprehensions(s.drop_last(), c, x) + walk_comprehension(&s.last(), c, x)
    }
}

/// A keyword argument.
pub open spec fn walk_keyword<'a>(n: &'a Keyword, c: Coverage, x: At<'a>) -> Seq<Seen<'a>>
    decreases n, 0nat,
{
    if enters_keyword(n, c) {
        seq![found(Node::Keyword(n), x)]
            + walk_expr(&n.value, c, below(x))
    } else {
        seq![]
    }
}

/// A list of keyword arguments.
pub open spec fn walk_keywords<'a>(s: Seq<Keyword>, c: Coverage, x: At<'a>) -> Seq<Seen<'a>>
    decreases s, 0nat,
{
    if s.len() == 0 {
        seq![]
    } else {
        walk_keywords(s.drop_last(), c, x) + walk_keyword(&s.last(), c, x)
    }
}

/// A context manager of a `with` statement.
pub open spec fn walk_with_item<'a>(n: &'a WithItem, c: Coverage, x: At<'a>) -> Seq<Seen<'a>>
    decreases n, 0nat,
{
    if c.with_items {
        seq![found(Node::WithItem(n), x)]
            + walk_expr(&n.context_expr, c, below(x)) + walk_opt_expr(n.optional_vars, c, below(x))
    } else {
        seq![]
    }
}

/// The context managers of a `with` statement.
pub open spec fn walk_with_items<'a>(s: Seq<WithItem>, c: Coverage, x: At<'a>) -> Seq<Seen<'a>>
    decreases s, 0nat,
{
    if s.len() == 0 {
        seq![]
    } else {
        walk_with_items(s.drop_last(), c, x) + walk_with_item(&s.last(), c, x)
    }
}

/// A case of a `match` statement.
pub open spec fn walk_case<'a>(n: &'a MatchCase, c: Coverage, x: At<'a>) -> Seq<Seen<'a>>
    decreases n, 0nat,
{
    seq![found(Node::Case(n), x)]
        + walk_pattern(&n.pattern, c, below(x)) + walk_opt_expr(n.guard, c, below(x))
        + walk_stmts(n.body@, c, below(x))
}

/// The cases of a `match` statement.
pub open spec fn walk_cases<'a>(s: Seq<MatchCase>, c: Coverage, x: At<'a>) -> Seq<Seen<'a>>
    decreases s, 0nat,
{
    if s.len() == 0 {
        seq![]
    } else {
        walk_cases(s.drop_last(), c, x) + walk_case(&s.last(), c, x)
    }
}

/// The expressions of a pattern.
pub open spec fn walk_pattern<'a>(p: &'a Pattern, c: Coverage, x: At<'a>) -> Seq<Seen<'a>>
    decreases p, 0nat,
{
    match p {
        Pattern::MatchValue(n) => walk_expr(&n.value, c, x),
        Pattern::MatchSequence(n) => walk_patterns(n.patterns@, c, x),
        Pattern::MatchMapping(n) => walk_exprs(n.keys@, c, x) + walk_patterns(n.patterns@, c, x),
        Pattern::MatchClass(n) => walk_expr(&n.cls, c, x) + walk_patterns(n.patterns@, c, x) + walk_patterns(n.kwd_patterns@, c, x),
        Pattern::MatchAs(n) => walk_opt_pattern(n.pattern, c, x),
        Pattern::MatchOr(n) => walk_patterns(n.patterns@, c, x),
        _ => seq![],
    }
}

/// The expressions of a pattern that may be absent.
pub open spec fn walk_opt_pattern<'a>(p: Option<Box<Pattern>>, c: Coverage, x: At<'a>) -> Seq<
    Seen<'a>,
>
    decreases p, 0nat,
{
    match p {
        Some(p) => walk_pattern(&*p, c, x),
        None => seq![],
    }
}

/// The expressions of a list of patterns.
pub open spec fn walk_patterns<'a>(s: Seq<Pattern>, c: Coverage, x: At<'a>) -> Seq<Seen<'a>>
    decreases s, 0nat,
{
    if s.len() == 0 {
        seq![]
    } else {
        walk_patterns(s.drop_last(), c, x) + walk_pattern(&s.last(), c, x)
    }
}

/// The bounds of a list of type parameters.
pub open spec fn walk_type_params<'a>(s: Seq<TypeParam>, c: Coverage, x: At<'a>) -> Seq<Seen<'a>>
    decreases s, 0nat,
{
    if s.len() == 0 {
        seq![]
    } else {
        walk_type_params(s.drop_last(), c, x) + (match s.last() {
            TypeParam::TypeVar(n) => walk_opt_expr(n.bound, c, x),
            _ => seq![],
        })
    }
}

// ── Making the walk ─────────────────────────────────────────────────────────

fn is_type_checking_guard(test: &Expr) -> (r: bool)
    ensures
        r == is_type_checking(test),
{
    match test {
        Expr::Name(n) => same(name_of(&n.id), "TYPE_CHECKING"),
        Expr::Attribute(a) => same(name_of(&a.attr), "TYPE_CHECKING"),
        _ => false,
    }
}

fn stops_at(s: &Stmt, c: Coverage) -> (r: bool)
    ensures
        r == stops_at_stmt(s, c),
{
    match s {
        Stmt::FunctionDef(_) => !c.functions,
        Stmt::AsyncFunctionDef(_) => !c.functions,
        Stmt::ClassDef(_) => !c.classes,
        Stmt::If(n) => !c.type_checking && is_type_checking_guard(&n.test),
        _ => false,
    }
}

fn record<'a>(node: Node<'a>, x: Place<'a>, out: &mut Vec<Visit<'a>>)
    ensures
        grown(old(out)@, final(out)@, seq![found(node, x@)]),
        final(out)@.len() == old(out)@.len() + 1,
        final(out)@.len() <= usize::MAX,
{
    broadcast use lemma_grown;

    out.push(Visit { node, depth: x.depth, nesting: x.nesting, class: x.class });
    let count: usize = out.len();
    proof {
        reveal(added);
        assert(seen(out@) =~= seen(old(out)@) + seq![found(node, x@)]);
    }
}

fn record_block<'a>(node: Node<'a>, x: Place<'a>, out: &mut Vec<Visit<'a>>) -> (own: Place<'a>)
    requires
        x.fits(old(out)@.len()),
    ensures
        own@ == within(x@),
        own.fits(final(out)@.len()),
        grown(old(out)@, final(out)@, seq![found(node, within(x@))]),
        final(out)@.len() == old(out)@.len() + 1,
        final(out)@.len() <= usize::MAX,
{
    broadcast use lemma_grown;

    out.push(Visit { node, depth: x.depth, nesting: x.nesting, class: x.class });
    let last: usize = out.len() - 1;
    let own: Place<'a> = Place { depth: x.depth, nesting: x.nesting + 1, class: x.class };
    out.set(last, Visit { node, depth: own.depth, nesting: own.nesting, class: own.class });
    proof {
        reveal(added);
        assert(seen(out@) =~= seen(old(out)@) + seq![found(node, within(x@))]);
    }
    own
}

/// What a walk adds to the visits before it.
#[verifier::opaque]
pub open spec fn added<'a>(before: Seq<Visit<'a>>, after: Seq<Visit<'a>>, more: Seq<Seen<'a>>) -> bool {
    seen(after) == seen(before) + more
}

proof fn lemma_nothing_added<'a>(v: Seq<Visit<'a>>)
    ensures
        added(v, v, Seq::<Seen<'a>>::empty()),
{
    reveal(added);
    assert(seen(v) =~= seen(v) + Seq::<Seen<'a>>::empty());
}

/// A walk adds to whatever was added before it.
pub open spec fn grown<'a>(before: Seq<Visit<'a>>, after: Seq<Visit<'a>>, more: Seq<Seen<'a>>) -> bool {
    &&& added(before, after, more)
    &&& forall|base: Seq<Visit<'a>>, earlier: Seq<Seen<'a>>| #[trigger]
        added(base, before, earlier) ==> added(base, after, earlier + more)
}

broadcast proof fn lemma_grown<'a>(before: Seq<Visit<'a>>, after: Seq<Visit<'a>>, more: Seq<Seen<'a>>)
    requires
        added(before, after, more),
    ensures
        #[trigger] grown(before, after, more),
{
    reveal(added);
    assert forall|base: Seq<Visit<'a>>, earlier: Seq<Seen<'a>>| #[trigger]
        added(base, before, earlier) implies added(base, after, earlier + more) by {
        assert(seen(base) + earlier + more =~= seen(base) + (earlier + more));
    }
}

fn deeper<'a>(x: Place<'a>) -> (r: Place<'a>)
    requires
        x.depth < usize::MAX,
    ensures
        r@ == below(x@),
        r.depth == x.depth + 1,
        r.nesting == x.nesting,
{
    Place { depth: x.depth + 1, nesting: x.nesting, class: x.class }
}

fn visit_stmt<'a>(s: &'a Stmt, c: Coverage, x: Place<'a>, out: &mut Vec<Visit<'a>>)
    requires
        x.fits(old(out)@.len()),
    ensures
        grown(old(out)@, final(out)@, walk_stmt(s, c, x@)),
        final(out)@.len() >= old(out)@.len(),
    decreases s, 2nat,
{
    broadcast use lemma_grown;

    proof {
        lemma_nothing_added(old(out)@);
    }
    let own: Place<'a> = match s {
        Stmt::If(_)
        | Stmt::While(_)
        | Stmt::For(_)
        | Stmt::AsyncFor(_)
        | Stmt::With(_)
        | Stmt::Try(_) => record_block(Node::Stmt(s), x, out),
        _ => {
            record(Node::Stmt(s), x, out);
            x
        },
    };
    if !stops_at(s, c) {
        let under: Place<'a> = Place {
            depth: x.depth + 1,
            nesting: own.nesting,
            class: match s {
                Stmt::ClassDef(n) => Some(&n.name),
                _ => x.class,
            },
        };
        visit_stmt_parts(s, c, under, out);
    } else {
        proof {
            let own = seq![found(Node::Stmt(s), at_stmt(s, x@))];
            assert(own + Seq::<Seen<'a>>::empty() =~= own);
        }
    }
}

fn visit_stmt_parts<'a>(s: &'a Stmt, c: Coverage, x: Place<'a>, out: &mut Vec<Visit<'a>>)
    requires
        x.fits(old(out)@.len()),
    ensures
        grown(old(out)@, final(out)@, stmt_parts(s, c, x@)),
        final(out)@.len() >= old(out)@.len(),
    decreases s, 1nat,
{
    broadcast use lemma_grown;

    proof {
        lemma_nothing_added(old(out)@);
    }
    match s {
        Stmt::FunctionDef(_)
        | Stmt::AsyncFunctionDef(_)
        | Stmt::ClassDef(_) => visit_definition_parts(s, c, x, out),
        Stmt::For(_)
        | Stmt::AsyncFor(_)
        | Stmt::While(_)
        | Stmt::If(_) => visit_loop_parts(s, c, x, out),
        Stmt::With(_)
        | Stmt::AsyncWith(_)
        | Stmt::Match(_)
        | Stmt::Try(_)
        | Stmt::TryStar(_) => visit_block_parts(s, c, x, out),
        Stmt::Delete(_)
        | Stmt::Assign(_)
        | Stmt::TypeAlias(_)
        | Stmt::AugAssign(_)
        | Stmt::AnnAssign(_) => visit_binding_parts(s, c, x, out),
        Stmt::Return(_)
        | Stmt::Raise(_)
        | Stmt::Assert(_)
        | Stmt::Expr(_) => visit_simple_parts(s, c, x, out),
        _ => {},
    }
}

fn visit_definition_parts<'a>(s: &'a Stmt, c: Coverage, x: Place<'a>, out: &mut Vec<Visit<'a>>)
    requires
        s is FunctionDef || s is AsyncFunctionDef || s is ClassDef,
        x.fits(old(out)@.len()),
    ensures
        grown(old(out)@, final(out)@, stmt_parts(s, c, x@)),
        final(out)@.len() >= old(out)@.len(),
    decreases s, 0nat,
{
    broadcast use lemma_grown;

    match s {
        Stmt::FunctionDef(n) => {
            walk_arguments_children(&n.args, c, x, out);
            visit_stmts(&n.body, c, x, out);
            visit_exprs(&n.decorator_list, c, x, out);
            visit_opt_expr(&n.returns, c, x, out);
            visit_type_params(&n.type_params, c, x, out);
        },
        Stmt::AsyncFunctionDef(n) => {
            walk_arguments_children(&n.args, c, x, out);
            visit_stmts(&n.body, c, x, out);
            visit_exprs(&n.decorator_list, c, x, out);
            visit_opt_expr(&n.returns, c, x, out);
            visit_type_params(&n.type_params, c, x, out);
        },
        Stmt::ClassDef(n) => {
            visit_exprs(&n.bases, c, x, out);
            visit_keywords(&n.keywords, c, x, out);
            visit_stmts(&n.body, c, x, out);
            visit_exprs(&n.decorator_list, c, x, out);
            visit_type_params(&n.type_params, c, x, out);
        },
        _ => {},
    }
}

fn visit_loop_parts<'a>(s: &'a Stmt, c: Coverage, x: Place<'a>, out: &mut Vec<Visit<'a>>)
    requires
        s is For || s is AsyncFor || s is While || s is If,
        x.fits(old(out)@.len()),
    ensures
        grown(old(out)@, final(out)@, stmt_parts(s, c, x@)),
        final(out)@.len() >= old(out)@.len(),
    decreases s, 0nat,
{
    broadcast use lemma_grown;

    match s {
        Stmt::For(n) => {
            visit_expr(&n.target, c, x, out);
            visit_expr(&n.iter, c, x, out);
            visit_stmts(&n.body, c, x, out);
            visit_stmts(&n.orelse, c, x, out);
        },
        Stmt::AsyncFor(n) => {
            visit_expr(&n.target, c, x, out);
            visit_expr(&n.iter, c, x, out);
            visit_stmts(&n.body, c, x, out);
            visit_stmts(&n.orelse, c, x, out);
        },
        Stmt::While(n) => {
            visit_expr(&n.test, c, x, out);
            visit_stmts(&n.body, c, x, out);
            visit_stmts(&n.orelse, c, x, out);
        },
        Stmt::If(n) => {
            visit_expr(&n.test, c, x, out);
            visit_stmts(&n.body, c, x, out);
            visit_stmts(&n.orelse, c, x, out);
        },
        _ => {},
    }
}

fn visit_block_parts<'a>(s: &'a Stmt, c: Coverage, x: Place<'a>, out: &mut Vec<Visit<'a>>)
    requires
        s is With || s is AsyncWith || s is Match || s is Try || s is TryStar,
        x.fits(old(out)@.len()),
    ensures
        grown(old(out)@, final(out)@, stmt_parts(s, c, x@)),
        final(out)@.len() >= old(out)@.len(),
    decreases s, 0nat,
{
    broadcast use lemma_grown;

    match s {
        Stmt::With(n) => {
            visit_with_items(&n.items, c, x, out);
            visit_stmts(&n.body, c, x, out);
        },
        Stmt::AsyncWith(n) => {
            visit_with_items(&n.items, c, x, out);
            visit_stmts(&n.body, c, x, out);
        },
        Stmt::Match(n) => {
            visit_expr(&n.subject, c, x, out);
            visit_cases(&n.cases, c, x, out);
        },
        Stmt::Try(n) => {
            visit_stmts(&n.body, c, x, out);
            visit_handlers(&n.handlers, c, x, out);
            visit_stmts(&n.orelse, c, x, out);
            visit_stmts(&n.finalbody, c, x, out);
        },
        Stmt::TryStar(n) => {
            visit_stmts(&n.body, c, x, out);
            visit_handlers(&n.handlers, c, x, out);
            visit_stmts(&n.orelse, c, x, out);
            visit_stmts(&n.finalbody, c, x, out);
        },
        _ => {},
    }
}

fn visit_binding_parts<'a>(s: &'a Stmt, c: Coverage, x: Place<'a>, out: &mut Vec<Visit<'a>>)
    requires
        s is Delete || s is Assign || s is TypeAlias || s is AugAssign || s is AnnAssign,
        x.fits(old(out)@.len()),
    ensures
        grown(old(out)@, final(out)@, stmt_parts(s, c, x@)),
        final(out)@.len() >= old(out)@.len(),
    decreases s, 0nat,
{
    broadcast use lemma_grown;

    match s {
        Stmt::Delete(n) => {
            visit_exprs(&n.targets, c, x, out);
        },
        Stmt::Assign(n) => {
            visit_exprs(&n.targets, c, x, out);
            visit_expr(&n.value, c, x, out);
        },
        Stmt::TypeAlias(n) => {
            visit_expr(&n.name, c, x, out);
            visit_type_params(&n.type_params, c, x, out);
            visit_expr(&n.value, c, x, out);
        },
        Stmt::AugAssign(n) => {
            visit_expr(&n.target, c, x, out);
            visit_expr(&n.value, c, x, out);
        },
        Stmt::AnnAssign(n) => {
            visit_expr(&n.target, c, x, out);
            visit_expr(&n.annotation, c, x, out);
            visit_opt_expr(&n.value, c, x, out);
        },
        _ => {},
    }
}

fn visit_simple_parts<'a>(s: &'a Stmt, c: Coverage, x: Place<'a>, out: &mut Vec<Visit<'a>>)
    requires
        s is Return || s is Raise || s is Assert || s is Expr,
        x.fits(old(out)@.len()),
    ensures
        grown(old(out)@, final(out)@, stmt_parts(s, c, x@)),
        final(out)@.len() >= old(out)@.len(),
    decreases s, 0nat,
{
    broadcast use lemma_grown;

    match s {
        Stmt::Return(n) => {
            visit_opt_expr(&n.value, c, x, out);
        },
        Stmt::Raise(n) => {
            visit_opt_expr(&n.exc, c, x, out);
            visit_opt_expr(&n.cause, c, x, out);
        },
        Stmt::Assert(n) => {
            visit_expr(&n.test, c, x, out);
            visit_opt_expr(&n.msg, c, x, out);
        },
        Stmt::Expr(n) => {
            visit_expr(&n.value, c, x, out);
        },
        _ => {},
    }
}

fn visit_handler<'a>(h: &'a ExceptHandler, c: Coverage, x: Place<'a>, out: &mut Vec<Visit<'a>>)
    requires
        x.fits(old(out)@.len()),
    ensures
        grown(old(out)@, final(out)@, walk_handler(h, c, x@)),
        final(out)@.len() >= old(out)@.len(),
    decreases h, 0nat,
{
    broadcast use lemma_grown;

    proof {
        lemma_nothing_added(old(out)@);
    }
    match h {
        ExceptHandler::ExceptHandler(n) => {
            let own = record_block(Node::Handler(n), x, out);
            visit_opt_expr(&n.type_, c, own, out);
            visit_stmts(&n.body, c, own, out);
        },
    }
}

fn visit_expr<'a>(e: &'a Expr, c: Coverage, x: Place<'a>, out: &mut Vec<Visit<'a>>)
    requires
        x.fits(old(out)@.len()),
    ensures
        grown(old(out)@, final(out)@, walk_expr(e, c, x@)),
        final(out)@.len() >= old(out)@.len(),
    decreases e, 2nat,
{
    broadcast use lemma_grown;

    proof {
        lemma_nothing_added(old(out)@);
    }
    record(Node::Expr(e), x, out);
    visit_expr_parts(e, c, deeper(x), out);
}

fn visit_expr_parts<'a>(e: &'a Expr, c: Coverage, x: Place<'a>, out: &mut Vec<Visit<'a>>)
    requires
        x.fits(old(out)@.len()),
    ensures
        grown(old(out)@, final(out)@, expr_parts(e, c, x@)),
        final(out)@.len() >= old(out)@.len(),
    decreases e, 1nat,
{
    broadcast use lemma_grown;

    proof {
        lemma_nothing_added(old(out)@);
    }
    match e {
        Expr::BoolOp(_)
        | Expr::NamedExpr(_)
        | Expr::BinOp(_)
        | Expr::UnaryOp(_)
        | Expr::Compare(_) => visit_operator_parts(e, c, x, out),
        Expr::ListComp(_)
        | Expr::SetComp(_)
        | Expr::DictComp(_)
        | Expr::GeneratorExp(_) => visit_scoped_parts(e, c, x, out),
        Expr::Dict(_)
        | Expr::Set(_)
        | Expr::List(_)
        | Expr::Tuple(_)
        | Expr::Slice(_)
        | Expr::JoinedStr(_)
        | Expr::FormattedValue(_) => visit_display_parts(e, c, x, out),
        Expr::Call(_)
        | Expr::Attribute(_)
        | Expr::Starred(_)
        | Expr::IfExp(_)
        | Expr::Await(_)
        | Expr::Yield(_)
        | Expr::YieldFrom(_) => visit_access_parts(e, c, x, out),
        Expr::Lambda(_)
        | Expr::Subscript(_) => visit_limited_parts(e, c, x, out),
        _ => {},
    }
}

fn visit_operator_parts<'a>(e: &'a Expr, c: Coverage, x: Place<'a>, out: &mut Vec<Visit<'a>>)
    requires
        e is BoolOp || e is NamedExpr || e is BinOp || e is UnaryOp || e is Compare,
        x.fits(old(out)@.len()),
    ensures
        grown(old(out)@, final(out)@, expr_parts(e, c, x@)),
        final(out)@.len() >= old(out)@.len(),
    decreases e, 0nat,
{
    broadcast use lemma_grown;

    match e {
        Expr::BoolOp(n) => {
            visit_exprs(&n.values, c, x, out);
        },
        Expr::NamedExpr(n) => {
            visit_expr(&n.target, c, x, out);
            visit_expr(&n.value, c, x, out);
        },
        Expr::BinOp(n) => {
            visit_expr(&n.left, c, x, out);
            visit_expr(&n.right, c, x, out);
        },
        Expr::UnaryOp(n) => {
            visit_expr(&n.operand, c, x, out);
        },
        Expr::Compare(n) => {
            visit_expr(&n.left, c, x, out);
            visit_exprs(&n.comparators, c, x, out);
        },
        _ => {},
    }
}

fn visit_scoped_parts<'a>(e: &'a Expr, c: Coverage, x: Place<'a>, out: &mut Vec<Visit<'a>>)
    requires
        e is ListComp || e is SetComp || e is DictComp || e is GeneratorExp,
        x.fits(old(out)@.len()),
    ensures
        grown(old(out)@, final(out)@, expr_parts(e, c, x@)),
        final(out)@.len() >= old(out)@.len(),
    decreases e, 0nat,
{
    broadcast use lemma_grown;

    match e {
        Expr::ListComp(n) => {
            visit_expr(&n.elt, c, x, out);
            visit_comprehensions(&n.generators, c, x, out);
        },
        Expr::SetComp(n) => {
            visit_expr(&n.elt, c, x, out);
            visit_comprehensions(&n.generators, c, x, out);
        },
        Expr::DictComp(n) => {
            visit_expr(&n.key, c, x, out);
            visit_expr(&n.value, c, x, out);
            visit_comprehensions(&n.generators, c, x, out);
        },
        Expr::GeneratorExp(n) => {
            visit_expr(&n.elt, c, x, out);
            visit_comprehensions(&n.generators, c, x, out);
        },
        _ => {},
    }
}

fn visit_display_parts<'a>(e: &'a Expr, c: Coverage, x: Place<'a>, out: &mut Vec<Visit<'a>>)
    requires
        e is Dict || e is Set || e is List || e is Tuple || e is Slice || e is JoinedStr || e is FormattedValue,
        x.fits(old(out)@.len()),
    ensures
        grown(old(out)@, final(out)@, expr_parts(e, c, x@)),
        final(out)@.len() >= old(out)@.len(),
    decreases e, 0nat,
{
    broadcast use lemma_grown;

    match e {
        Expr::Dict(n) => {
            visit_opt_exprs(&n.keys, c, x, out);
            visit_exprs(&n.values, c, x, out);
        },
        Expr::Set(n) => {
            visit_exprs(&n.elts, c, x, out);
        },
        Expr::List(n) => {
            visit_exprs(&n.elts, c, x, out);
        },
        Expr::Tuple(n) => {
            visit_exprs(&n.elts, c, x, out);
        },
        Expr::Slice(n) => {
            visit_opt_expr(&n.lower, c, x, out);
            visit_opt_expr(&n.upper, c, x, out);
            visit_opt_expr(&n.step, c, x, out);
        },
        Expr::JoinedStr(n) => {
            visit_exprs(&n.values, c, x, out);
        },
        Expr::FormattedValue(n) => {
            visit_expr(&n.value, c, x, out);
            visit_opt_expr(&n.format_spec, c, x, out);
        },
        _ => {},
    }
}

fn visit_access_parts<'a>(e: &'a Expr, c: Coverage, x: Place<'a>, out: &mut Vec<Visit<'a>>)
    requires
        e is Call || e is Attribute || e is Starred || e is IfExp || e is Await || e is Yield || e is YieldFrom,
        x.fits(old(out)@.len()),
    ensures
        grown(old(out)@, final(out)@, expr_parts(e, c, x@)),
        final(out)@.len() >= old(out)@.len(),
    decreases e, 0nat,
{
    broadcast use lemma_grown;

    match e {
        Expr::Call(n) => {
            visit_expr(&n.func, c, x, out);
            visit_exprs(&n.args, c, x, out);
            visit_keywords(&n.keywords, c, x, out);
        },
        Expr::Attribute(n) => {
            visit_expr(&n.value, c, x, out);
        },
        Expr::Starred(n) => {
            visit_expr(&n.value, c, x, out);
        },
        Expr::IfExp(n) => {
            visit_expr(&n.test, c, x, out);
            visit_expr(&n.body, c, x, out);
            visit_expr(&n.orelse, c, x, out);
        },
        Expr::Await(n) => {
            visit_expr(&n.value, c, x, out);
        },
        Expr::Yield(n) => {
            visit_opt_expr(&n.value, c, x, out);
        },
        Expr::YieldFrom(n) => {
            visit_expr(&n.value, c, x, out);
        },
        _ => {},
    }
}

fn visit_limited_parts<'a>(e: &'a Expr, c: Coverage, x: Place<'a>, out: &mut Vec<Visit<'a>>)
    requires
        e is Lambda || e is Subscript,
        x.fits(old(out)@.len()),
    ensures
        grown(old(out)@, final(out)@, expr_parts(e, c, x@)),
        final(out)@.len() >= old(out)@.len(),
    decreases e, 0nat,
{
    broadcast use lemma_grown;

    match e {
        Expr::Lambda(n) => {
            if c.lambdas {
                walk_arguments_children(&n.args, c, x, out);
                visit_expr(&n.body, c, x, out);
            } else {
                proof {
                    lemma_nothing_added(old(out)@);
                }
            }
        },
        Expr::Subscript(n) => {
            let head: bool = match &*n.value {
                Expr::Name(m) => same(name_of(&m.id), "dict"),
                _ => false,
            };
            if c.dict_heads || !head {
                visit_expr(&n.value, c, x, out);
                visit_expr(&n.slice, c, x, out);
            } else {
                visit_expr(&n.slice, c, x, out);
            }
        },

        _ => {},
    }
}

fn visit_opt_expr<'a>(e: &'a Option<Box<Expr>>, c: Coverage, x: Place<'a>, out: &mut Vec<Visit<'a>>)
    requires
        x.fits(old(out)@.len()),
    ensures
        grown(old(out)@, final(out)@, walk_opt_expr(*e, c, x@)),
        final(out)@.len() >= old(out)@.len(),
    decreases e, 0nat,
{
    broadcast use lemma_grown;

    proof {
        lemma_nothing_added(old(out)@);
    }
    match e {
        Some(e) => visit_expr(e, c, x, out),
        None => {},
    }
}

fn visit_opt_arg<'a>(a: &'a Option<Box<Arg>>, c: Coverage, x: Place<'a>, out: &mut Vec<Visit<'a>>)
    requires
        x.fits(old(out)@.len()),
    ensures
        grown(old(out)@, final(out)@, walk_opt_arg(*a, c, x@)),
        final(out)@.len() >= old(out)@.len(),
    decreases a, 0nat,
{
    broadcast use lemma_grown;

    proof {
        lemma_nothing_added(old(out)@);
    }
    match a {
        Some(a) => visit_opt_expr(&a.annotation, c, x, out),
        None => {},
    }
}

/// Goes through the annotations and defaults of parameters, those of `*args` and
/// `**kwargs` last.
pub fn walk_arguments_children<'a>(a: &'a Arguments, c: Coverage, x: Place<'a>, out: &mut Vec<Visit<'a>>)
    requires
        x.fits(old(out)@.len()),
    ensures
        grown(old(out)@, final(out)@, walk_arguments(a, c, x@)),
        final(out)@.len() >= old(out)@.len(),
    decreases a, 0nat,
{
    broadcast use lemma_grown;

    proof {
        lemma_nothing_added(old(out)@);
    }
    if c.arguments {
        record(Node::Arguments(a), x, out);
        let under = deeper(x);
        visit_params(&a.posonlyargs, c, under, out);
        visit_params(&a.args, c, under, out);
        visit_params(&a.kwonlyargs, c, under, out);
        visit_opt_arg(&a.vararg, c, under, out);
        visit_opt_arg(&a.kwarg, c, under, out);
    }
}

/// Goes through the target, the iterable and the conditions of a comprehension
/// clause.
pub fn walk_comprehension_children<'a>(n: &'a Comprehension, c: Coverage, x: Place<'a>, out: &mut Vec<Visit<'a>>)
    requires
        x.fits(old(out)@.len()),
    ensures
        grown(old(out)@, final(out)@, walk_comprehension(n, c, x@)),
        final(out)@.len() >= old(out)@.len(),
    decreases n, 0nat,
{
    broadcast use lemma_grown;

    proof {
        lemma_nothing_added(old(out)@);
    }
    if c.comprehensions {
        record(Node::Comprehension(n), x, out);
        let under = deeper(x);
        visit_expr(&n.target, c, under, out);
        visit_expr(&n.iter, c, under, out);
        visit_exprs(&n.ifs, c, under, out);
    }
}

/// Goes through the value of a keyword argument.
pub fn walk_keyword_children<'a>(n: &'a Keyword, c: Coverage, x: Place<'a>, out: &mut Vec<Visit<'a>>)
    requires
        x.fits(old(out)@.len()),
    ensures
        grown(old(out)@, final(out)@, walk_keyword(n, c, x@)),
        final(out)@.len() >= old(out)@.len(),
    decreases n, 0nat,
{
    broadcast use lemma_grown;

    proof {
        lemma_nothing_added(old(out)@);
    }
    let enter: bool = match c.keywords {
        KeywordValues::Skipped => false,
        KeywordValues::Computed => match &n.value {
            Expr::Constant(_) => false,
            _ => true,
        },
        KeywordValues::All => true,
    };
    if enter {
        record(Node::Keyword(n), x, out);
        visit_expr(&n.value, c, deeper(x), out);
    }
}

/// Goes through a context manager and the name it is bound to.
pub fn walk_withitem_children<'a>(n: &'a WithItem, c: Coverage, x: Place<'a>, out: &mut Vec<Visit<'a>>)
    requires
        x.fits(old(out)@.len()),
    ensures
        grown(old(out)@, final(out)@, walk_with_item(n, c, x@)),
        final(out)@.len() >= old(out)@.len(),
    decreases n, 0nat,
{
    broadcast use lemma_grown;

    proof {
        lemma_nothing_added(old(out)@);
    }
    if c.with_items {
        record(Node::WithItem(n), x, out);
        let under = deeper(x);
        visit_expr(&n.context_expr, c, under, out);
        visit_opt_expr(&n.optional_vars, c, under, out);
    }
}

fn visit_case<'a>(n: &'a MatchCase, c: Coverage, x: Place<'a>, out: &mut Vec<Visit<'a>>)
    requires
        x.fits(old(out)@.len()),
    ensures
        grown(old(out)@, final(out)@, walk_case(n, c, x@)),
        final(out)@.len() >= old(out)@.len(),
    decreases n, 0nat,
{
    broadcast use lemma_grown;

    record(Node::Case(n), x, out);
    let under = deeper(x);
    visit_pattern(&n.pattern, c, under, out);
    visit_opt_expr(&n.guard, c, under, out);
    visit_stmts(&n.body, c, under, out);
}

fn visit_pattern<'a>(p: &'a Pattern, c: Coverage, x: Place<'a>, out: &mut Vec<Visit<'a>>)
    requires
        x.fits(old(out)@.len()),
    ensures
        grown(old(out)@, final(out)@, walk_pattern(p, c, x@)),
        final(out)@.len() >= old(out)@.len(),
    decreases p, 0nat,
{
    broadcast use lemma_grown;

    proof {
        lemma_nothing_added(old(out)@);
    }
    match p {
        Pattern::MatchValue(n) => {
            visit_expr(&n.value, c, x, out);
        },
        Pattern::MatchSequence(n) => {
            visit_patterns(&n.patterns, c, x, out);
        },
        Pattern::MatchMapping(n) => {
            visit_exprs(&n.keys, c, x, out);
            visit_patterns(&n.patterns, c, x, out);
        },
        Pattern::MatchClass(n) => {
            visit_expr(&n.cls, c, x, out);
            visit_patterns(&n.patterns, c, x, out);
            visit_patterns(&n.kwd_patterns, c, x, out);
        },
        Pattern::MatchAs(n) => {
            visit_opt_pattern(&n.pattern, c, x, out);
        },
        Pattern::MatchOr(n) => {
            visit_patterns(&n.patterns, c, x, out);
        },
        _ => {},
    }
}

fn visit_opt_pattern<'a>(p: &'a Option<Box<Pattern>>, c: Coverage, x: Place<'a>, out: &mut Vec<Visit<'a>>)
    requires
        x.fits(old(out)@.len()),
    ensures
        grown(old(out)@, final(out)@, walk_opt_pattern(*p, c, x@)),
        final(out)@.len() >= old(out)@.len(),
    decreases p, 0nat,
{
    broadcast use lemma_grown;

    proof {
        lemma_nothing_added(old(out)@);
    }
    match p {
        Some(p) => visit_pattern(p, c, x, out),
        None => {},
    }
}

fn visit_stmts<'a>(v: &'a Vec<Stmt>, c: Coverage, x: Place<'a>, out: &mut Vec<Visit<'a>>)
    requires
        x.fits(old(out)@.len()),
    ensures
        grown(old(out)@, final(out)@, walk_stmts(v@, c, x@)),
        final(out)@.len() >= old(out)@.len(),
    decreases v, 0nat,
{
    let mut i: usize = 0;
    broadcast use lemma_grown;

    proof {
        lemma_nothing_added(old(out)@);
    }
    while i < v.len()
        invariant
            i <= v@.len(),
            x.fits(old(out)@.len()),
            out@.len() >= old(out)@.len(),
            added(old(out)@, out@, walk_stmts(v@.take(i as int), c, x@)),
        decreases v@.len() - i,
    {
        visit_stmt(&v[i], c, x, out);
        assert(v@.take(i + 1).drop_last() =~= v@.take(i as int));
        i += 1;
    }
    assert(v@.take(i as int) =~= v@);
}

fn visit_handlers<'a>(v: &'a Vec<ExceptHandler>, c: Coverage, x: Place<'a>, out: &mut Vec<Visit<'a>>)
    requires
        x.fits(old(out)@.len()),
    ensures
        grown(old(out)@, final(out)@, walk_handlers(v@, c, x@)),
        final(out)@.len() >= old(out)@.len(),
    decreases v, 0nat,
{
    let mut i: usize = 0;
    broadcast use lemma_grown;

    proof {
        lemma_nothing_added(old(out)@);
    }
    while i < v.len()
        invariant
            i <= v@.len(),
            x.fits(old(out)@.len()),
            out@.len() >= old(out)@.len(),
            added(old(out)@, out@, walk_handlers(v@.take(i as int), c, x@)),
        decreases v@.len() - i,
    {
        visit_handler(&v[i], c, x, out);
        assert(v@.take(i + 1).drop_last() =~= v@.take(i as int));
        i += 1;
    }
    assert(v@.take(i as int) =~= v@);
}

fn visit_exprs<'a>(v: &'a Vec<Expr>, c: Coverage, x: Place<'a>, out: &mut Vec<Visit<'a>>)
    requires
        x.fits(old(out)@.len()),
    ensures
        grown(old(out)@, final(out)@, walk_exprs(v@, c, x@)),
        final(out)@.len() >= old(out)@.len(),
    decreases v, 0nat,
{
    let mut i: usize = 0;
    broadcast use lemma_grown;

    proof {
        lemma_nothing_added(old(out)@);
    }
    while i < v.len()
        invariant
            i <= v@.len(),
            x.fits(old(out)@.len()),
            out@.len() >= old(out)@.len(),
            added(old(out)@, out@, walk_exprs(v@.take(i as int), c, x@)),
        decreases v@.len() - i,
    {
        visit_expr(&v[i], c, x, out);
        assert(v@.take(i + 1).drop_last() =~= v@.take(i as int));
        i += 1;
    }
    assert(v@.take(i as int) =~= v@);
}

fn visit_opt_exprs<'a>(v: &'a Vec<Option<Expr>>, c: Coverage, x: Place<'a>, out: &mut Vec<Visit<'a>>)
    requires
        x.fits(old(out)@.len()),
    ensures
        grown(old(out)@, final(out)@, walk_opt_exprs(v@, c, x@)),
        final(out)@.len() >= old(out)@.len(),
    decreases v, 0nat,
{
    let mut i: usize = 0;
    broadcast use lemma_grown;

    proof {
        lemma_nothing_added(old(out)@);
    }
    while i < v.len()
        invariant
            i <= v@.len(),
            x.fits(old(out)@.len()),
            out@.len() >= old(out)@.len(),
            added(old(out)@, out@, walk_opt_exprs(v@.take(i as int), c, x@)),
        decreases v@.len() - i,
    {
        match &v[i] {
            Some(e) => visit_expr(e, c, x, out),
            None => {},
        }
        assert(v@.take(i + 1).drop_last() =~= v@.take(i as int));
        assert(walk_opt_exprs(v@.take(i as int), c, x@) + Seq::<Seen<'a>>::empty() =~= walk_opt_exprs(v@.take(i as int), c, x@));
        i += 1;
    }
    assert(v@.take(i as int) =~= v@);
}

fn visit_params<'a>(v: &'a Vec<ArgWithDefault>, c: Coverage, x: Place<'a>, out: &mut Vec<Visit<'a>>)
    requires
        x.fits(old(out)@.len()),
    ensures
        grown(old(out)@, final(out)@, walk_params(v@, c, x@)),
        final(out)@.len() >= old(out)@.len(),
    decreases v, 0nat,
{
    let mut i: usize = 0;
    broadcast use lemma_grown;

    proof {
        lemma_nothing_added(old(out)@);
    }
    while i < v.len()
        invariant
            i <= v@.len(),
            x.fits(old(out)@.len()),
            out@.len() >= old(out)@.len(),
            added(old(out)@, out@, walk_params(v@.take(i as int), c, x@)),
        decreases v@.len() - i,
    {
        visit_opt_expr(&v[i].def.annotation, c, x, out);
        visit_opt_expr(&v[i].default, c, x, out);
        assert(v@.take(i + 1).drop_last() =~= v@.take(i as int));
        i += 1;
    }
    assert(v@.take(i as int) =~= v@);
}

fn visit_comprehensions<'a>(v: &'a Vec<Comprehension>, c: Coverage, x: Place<'a>, out: &mut Vec<Visit<'a>>)
    requires
        x.fits(old(out)@.len()),
    ensures
        grown(old(out)@, final(out)@, walk_comprehensions(v@, c, x@)),
        final(out)@.len() >= old(out)@.len(),
    decreases v, 0nat,
{
    let mut i: usize = 0;
    broadcast use lemma_grown;

    proof {
        lemma_nothing_added(old(out)@);
    }
    while i < v.len()
        invariant
            i <= v@.len(),
            x.fits(old(out)@.len()),
            out@.len() >= old(out)@.len(),
            added(old(out)@, out@, walk_comprehensions(v@.take(i as int), c, x@)),
        decreases v@.len() - i,
    {
        walk_comprehension_children(&v[i], c, x, out);
        assert(v@.take(i + 1).drop_last() =~= v@.take(i as int));
        i += 1;
    }
    assert(v@.take(i as int) =~= v@);
}

fn visit_keywords<'a>(v: &'a Vec<Keyword>, c: Coverage, x: Place<'a>, out: &mut Vec<Visit<'a>>)
    requires
        x.fits(old(out)@.len()),
    ensures
        grown(old(out)@, final(out)@, walk_keywords(v@, c, x@)),
        final(out)@.len() >= old(out)@.len(),
    decreases v, 0nat,
{
    let mut i: usize = 0;
    broadcast use lemma_grown;

    proof {
        lemma_nothing_added(old(out)@);
    }
    while i < v.len()
        invariant
            i <= v@.len(),
            x.fits(old(out)@.len()),
            out@.len() >= old(out)@.len(),
            added(old(out)@, out@, walk_keywords(v@.take(i as int), c, x@)),
        decreases v@.len() - i,
    {
        walk_keyword_children(&v[i], c, x, out);
        assert(v@.take(i + 1).drop_last() =~= v@.take(i as int));
        i += 1;
    }
    assert(v@.take(i as int) =~= v@);
}

fn visit_with_items<'a>(v: &'a Vec<WithItem>, c: Coverage, x: Place<'a>, out: &mut Vec<Visit<'a>>)
    requires
        x.fits(old(out)@.len()),
    ensures
        grown(old(out)@, final(out)@, walk_with_items(v@, c, x@)),
        final(out)@.len() >= old(out)@.len(),
    decreases v, 0nat,
{
    let mut i: usize = 0;
    broadcast use lemma_grown;

    proof {
        lemma_nothing_added(old(out)@);
    }
    while i < v.len()
        invariant
            i <= v@.len(),
            x.fits(old(out)@.len()),
            out@.len() >= old(out)@.len(),
            added(old(out)@, out@, walk_with_items(v@.take(i as int), c, x@)),
        decreases v@.len() - i,
    {
        walk_withitem_children(&v[i], c, x, out);
        assert(v@.take(i + 1).drop_last() =~= v@.take(i as int));
        i += 1;
    }
    assert(v@.take(i as int) =~= v@);
}

fn visit_cases<'a>(v: &'a Vec<MatchCase>, c: Coverage, x: Place<'a>, out: &mut Vec<Visit<'a>>)
    requires
        x.fits(old(out)@.len()),
    ensures
        grown(old(out)@, final(out)@, walk_cases(v@, c, x@)),
        final(out)@.len() >= old(out)@.len(),
    decreases v, 0nat,
{
    let mut i: usize = 0;
    broadcast use lemma_grown;

    proof {
        lemma_nothing_added(old(out)@);
    }
    while i < v.len()
        invariant
            i <= v@.len(),
            x.fits(old(out)@.len()),
            out@.len() >= old(out)@.len(),
            added(old(out)@, out@, walk_cases(v@.take(i as int), c, x@)),
        decreases v@.len() - i,
    {
        visit_case(&v[i], c, x, out);
        assert(v@.take(i + 1).drop_last() =~= v@.take(i as int));
        i += 1;
    }
    assert(v@.take(i as int) =~= v@);
}

fn visit_patterns<'a>(v: &'a Vec<Pattern>, c: Coverage, x: Place<'a>, out: &mut Vec<Visit<'a>>)
    requires
        x.fits(old(out)@.len()),
    ensures
        grown(old(out)@, final(out)@, walk_patterns(v@, c, x@)),
        final(out)@.len() >= old(out)@.len(),
    decreases v, 0nat,
{
    let mut i: usize = 0;
    broadcast use lemma_grown;

    proof {
        lemma_nothing_added(old(out)@);
    }
    while i < v.len()
        invariant
            i <= v@.len(),
            x.fits(old(out)@.len()),
            out@.len() >= old(out)@.len(),
            added(old(out)@, out@, walk_patterns(v@.take(i as int), c, x@)),
        decreases v@.len() - i,
    {
        visit_pattern(&v[i], c, x, out);
        assert(v@.take(i + 1).drop_last() =~= v@.take(i as int));
        i += 1;
    }
    assert(v@.take(i as int) =~= v@);
}

fn visit_type_params<'a>(v: &'a Vec<TypeParam>, c: Coverage, x: Place<'a>, out: &mut Vec<Visit<'a>>)
    requires
        x.fits(old(out)@.len()),
    ensures
        grown(old(out)@, final(out)@, walk_type_params(v@, c, x@)),
        final(out)@.len() >= old(out)@.len(),
    decreases v, 0nat,
{
    let mut i: usize = 0;
    broadcast use lemma_grown;

    proof {
        lemma_nothing_added(old(out)@);
    }
    while i < v.len()
        invariant
            i <= v@.len(),
            x.fits(old(out)@.len()),
            out@.len() >= old(out)@.len(),
            added(old(out)@, out@, walk_type_params(v@.take(i as int), c, x@)),
        decreases v@.len() - i,
    {
        match &v[i] {
            TypeParam::TypeVar(n) => visit_opt_expr(&n.bound, c, x, out),
            _ => {},
        }
        assert(v@.take(i + 1).drop_last() =~= v@.take(i as int));
        assert(walk_type_params(v@.take(i as int), c, x@) + Seq::<Seen<'a>>::empty() =~= walk_type_params(v@.take(i as int), c, x@));
        i += 1;
    }
    assert(v@.take(i as int) =~= v@);
}

// ── Whole walks ─────────────────────────────────────────────────────────────

fn beginning<'a>() -> (r: Place<'a>)
    ensures
        r@ == outset(),
        r.fits(0),
{
    Place { depth: 0, nesting: 0, class: None }
}

/// The visits of a walk over a list of statements.
pub fn visits<'a>(body: &'a [Stmt], c: Coverage) -> (r: Vec<Visit<'a>>)
    ensures
        seen(r@) == walk_stmts(body@, c, outset()),
{
    let mut out: Vec<Visit<'a>> = Vec::new();
    let mut i: usize = 0;
    assert(seen(out@) =~= walk_stmts(body@.take(0), c, outset()));
    reveal(added);
    while i < body.len()
        invariant
            i <= body@.len(),
            seen(out@) == walk_stmts(body@.take(i as int), c, outset()),
        decreases body@.len() - i,
    {
        visit_stmt(&body[i], c, beginning(), &mut out);
        reveal(added);
        assert(body@.take(i + 1).drop_last() =~= body@.take(i as int));
        i += 1;
    }
    assert(body@.take(i as int) =~= body@);
    out
}

/// The visits of a walk over one statement.
pub fn visits_of<'a>(s: &'a Stmt, c: Coverage) -> (r: Vec<Visit<'a>>)
    ensures
        seen(r@) == walk_stmt(s, c, outset()),
{
    let mut out: Vec<Visit<'a>> = Vec::new();
    visit_stmt(s, c, beginning(), &mut out);
    reveal(added);
    assert(seen(out@) =~= walk_stmt(s, c, outset()));
    out
}

/// The visits of a walk over the parts of one statement.
pub fn visits_inside<'a>(s: &'a Stmt, c: Coverage) -> (r: Vec<Visit<'a>>)
    ensures
        seen(r@) == stmt_parts(s, c, outset()),
{
    let mut out: Vec<Visit<'a>> = Vec::new();
    visit_stmt_parts(s, c, beginning(), &mut out);
    reveal(added);
    assert(seen(out@) =~= stmt_parts(s, c, outset()));
    out
}

/// The visits of a walk over one expression.
pub fn visits_of_expr<'a>(e: &'a Expr, c: Coverage) -> (r: Vec<Visit<'a>>)
    ensures
        seen(r@) == walk_expr(e, c, outset()),
{
    let mut out: Vec<Visit<'a>> = Vec::new();
    visit_expr(e, c, beginning(), &mut out);
    reveal(added);
    assert(seen(out@) =~= walk_expr(e, c, outset()));
    out
}

} // verus!
