//! Statements as source text, so that two functions can be compared as texts.
//!
//! Each statement is written on a line of its own at its level of indentation;
//! expressions are written by `rustpython_ast`. The text need not be that of the
//! source: what matters is that code of like structure gives like text.

use crate::syntax::{identifier_text, name_of};
use crate::text::{join, joined, texts};
use crate::walk::{
    below, expressions, inside, outset, visits, visits_of, walk_arguments, walk_case, walk_cases,
    walk_expr, walk_exprs, walk_handler, walk_handlers, walk_opt_expr, walk_params, walk_stmt,
    walk_stmts, walk_with_item, walk_with_items, within, At, Node, Seen, Visit,
};
use rustpython_ast::{
    Alias, Arg, ArgWithDefault, Arguments, ExceptHandler, Expr, Identifier, MatchCase, Operator,
    Stmt, WithItem,
};
use vstd::prelude::*;
use vstd::string::*;

verus! {

// ── What can be written ─────────────────────────────────────────────────────

/// Whether an expression may stand inside an f-string: text, a value in braces, or
/// an f-string again.
pub open spec fn is_piece(e: Expr) -> bool {
    match e {
        Expr::Constant(n) => n.value is Str,
        Expr::JoinedStr(_) => true,
        Expr::FormattedValue(_) => true,
        _ => false,
    }
}

/// Whether all of a list may stand inside an f-string.
pub open spec fn all_pieces(s: Seq<Expr>) -> bool {
    forall|i: int| 0 <= i < s.len() ==> is_piece(#[trigger] s[i])
}

/// Whether an expression itself, its parts apart, is one that source text can spell:
/// the parts of an f-string are pieces, and each key of a dict display has a value.
pub open spec fn is_spelled(e: Expr) -> bool {
    match e {
        Expr::JoinedStr(n) => all_pieces(n.values@),
        Expr::FormattedValue(n) => match n.format_spec {
            Some(format) => is_piece(*format),
            None => true,
        },
        Expr::Dict(n) => n.keys@.len() <= n.values@.len(),
        _ => true,
    }
}

/// Whether a visit found an expression that can be spelled, or no expression.
pub open spec fn visit_spelled(v: Seen) -> bool {
    match v.node {
        Node::Expr(e) => is_spelled(*e),
        _ => true,
    }
}

/// Whether all expressions of a walk can be spelled.
#[verifier::opaque]
pub open spec fn all_spelled(v: Seq<Seen>) -> bool {
    forall|i: int| 0 <= i < v.len() ==> visit_spelled(#[trigger] v[i])
}

/// Whether an expression can be spelled through and through.
pub open spec fn expr_writable(e: &Expr) -> bool {
    exists|x: At| all_spelled(#[trigger] walk_expr(e, expressions(), x))
}

/// Whether a statement can be spelled through and through.
pub open spec fn writable(s: &Stmt) -> bool {
    all_spelled(walk_stmt(s, expressions(), outset()))
}

/// Whether a block can be spelled through and through.
pub open spec fn block_writable(body: Seq<Stmt>) -> bool {
    all_spelled(walk_stmts(body, expressions(), outset()))
}

broadcast proof fn lemma_spelled_parts(a: Seq<Seen>, b: Seq<Seen>)
    ensures
        #[trigger] all_spelled(a + b) == (all_spelled(a) && all_spelled(b)),
{
    reveal(all_spelled);
    if all_spelled(a + b) {
        assert forall|i: int| 0 <= i < a.len() implies visit_spelled(#[trigger] a[i]) by {
            assert((a + b)[i] == a[i]);
        }
        assert forall|i: int| 0 <= i < b.len() implies visit_spelled(#[trigger] b[i]) by {
            assert((a + b)[a.len() + i] == b[i]);
        }
    }
}

fn is_piece_of_text(e: &Expr) -> (r: bool)
    ensures
        r == is_piece(*e),
{
    match e {
        Expr::Constant(n) => matches!(n.value, rustpython_ast::Constant::Str(_)),
        Expr::JoinedStr(_) | Expr::FormattedValue(_) => true,
        _ => false,
    }
}

fn can_spell(e: &Expr) -> (r: bool)
    ensures
        r == is_spelled(*e),
{
    match e {
        Expr::JoinedStr(n) => {
            let mut i: usize = 0;
            while i < n.values.len()
                invariant
                    *e == Expr::JoinedStr(*n),
                    i <= n.values@.len(),
                    forall|k: int| 0 <= k < i ==> is_piece(#[trigger] n.values@[k]),
                decreases n.values@.len() - i,
            {
                if !is_piece_of_text(&n.values[i]) {
                    assert(!is_piece(n.values@[i as int]));
                    assert(!all_pieces(n.values@));
                    return false;
                }
                i += 1;
            }
            true
        },
        Expr::FormattedValue(n) => match &n.format_spec {
            Some(format) => is_piece_of_text(format),
            None => true,
        },
        Expr::Dict(n) => n.keys.len() <= n.values.len(),
        _ => true,
    }
}

fn can_spell_all(v: &Vec<Visit>) -> (r: bool)
    ensures
        r == all_spelled(crate::walk::seen(v@)),
{
    let ghost all = crate::walk::seen(v@);
    proof {
        reveal(all_spelled);
    }
    let mut i: usize = 0;
    while i < v.len()
        invariant
            i <= v@.len(),
            all == crate::walk::seen(v@),
            forall|k: int| 0 <= k < i ==> visit_spelled(#[trigger] all[k]),
        decreases v@.len() - i,
    {
        let ok = match v[i].node {
            Node::Expr(e) => can_spell(e),
            _ => true,
        };
        assert(all[i as int] == v@[i as int]@);
        if !ok {
            reveal(all_spelled);
            return false;
        }
        i += 1;
    }
    true
}

/// Whether a statement can be spelled through and through. Every statement that was
/// parsed from a source can.
pub fn is_writable(s: &Stmt) -> (r: bool)
    ensures
        r == writable(s),
{
    can_spell_all(&visits_of(s, expressions()))
}

/// Whether a block can be spelled through and through.
pub fn is_block_writable(body: &[Stmt]) -> (r: bool)
    ensures
        r == block_writable(body@),
{
    can_spell_all(&visits(body, expressions()))
}

// ── Expressions ─────────────────────────────────────────────────────────────

/// An expression as source text.
pub uninterp spec fn expr_text(e: Expr) -> Seq<char>;

/// `<Expr as Display>`: the expression as source text. It takes no f-string whose
/// parts are neither text nor values, and no dict display with more keys than values.
#[verifier::external_body]
pub(crate) fn expr_source(e: &Expr) -> (r: String)
    requires
        expr_writable(e),
    ensures
        r@ == expr_text(*e),
{
    e.to_string()
}

fn write_expr<'a>(e: &Expr, Ghost(x): Ghost<At<'a>>) -> (r: String)
    requires
        all_spelled(walk_expr(e, expressions(), x)),
    ensures
        r@ == expr_text(*e),
{
    expr_source(e)
}

/// The texts of a list of expressions.
pub open spec fn expr_texts(s: Seq<Expr>) -> Seq<Seq<char>> {
    s.map_values(|e: Expr| expr_text(e))
}

proof fn lemma_spelled_exprs(s: Seq<Expr>, x: At, i: int)
    requires
        all_spelled(walk_exprs(s, expressions(), x)),
        0 <= i < s.len(),
    ensures
        all_spelled(walk_expr(&s[i], expressions(), x)),
    decreases s.len(),
{
    broadcast use lemma_spelled_parts;

    let rest = s.drop_last();
    if i < s.len() - 1 {
        lemma_spelled_exprs(rest, x, i);
        assert(rest[i] == s[i]);
    }
}

proof fn lemma_spelled_stmts(s: Seq<Stmt>, x: At, i: int)
    requires
        all_spelled(walk_stmts(s, expressions(), x)),
        0 <= i < s.len(),
    ensures
        all_spelled(walk_stmt(&s[i], expressions(), x)),
    decreases s.len(),
{
    broadcast use lemma_spelled_parts;

    let rest = s.drop_last();
    if i < s.len() - 1 {
        lemma_spelled_stmts(rest, x, i);
        assert(rest[i] == s[i]);
    }
}

proof fn lemma_spelled_handlers(s: Seq<ExceptHandler>, x: At, i: int)
    requires
        all_spelled(walk_handlers(s, expressions(), x)),
        0 <= i < s.len(),
    ensures
        all_spelled(walk_handler(&s[i], expressions(), x)),
    decreases s.len(),
{
    broadcast use lemma_spelled_parts;

    let rest = s.drop_last();
    if i < s.len() - 1 {
        lemma_spelled_handlers(rest, x, i);
        assert(rest[i] == s[i]);
    }
}

proof fn lemma_spelled_cases(s: Seq<MatchCase>, x: At, i: int)
    requires
        all_spelled(walk_cases(s, expressions(), x)),
        0 <= i < s.len(),
    ensures
        all_spelled(walk_case(&s[i], expressions(), x)),
    decreases s.len(),
{
    broadcast use lemma_spelled_parts;

    let rest = s.drop_last();
    if i < s.len() - 1 {
        lemma_spelled_cases(rest, x, i);
        assert(rest[i] == s[i]);
    }
}

proof fn lemma_spelled_with_items(s: Seq<WithItem>, x: At, i: int)
    requires
        all_spelled(walk_with_items(s, expressions(), x)),
        0 <= i < s.len(),
    ensures
        all_spelled(walk_with_item(&s[i], expressions(), x)),
    decreases s.len(),
{
    broadcast use lemma_spelled_parts;

    let rest = s.drop_last();
    if i < s.len() - 1 {
        lemma_spelled_with_items(rest, x, i);
        assert(rest[i] == s[i]);
    }
}

proof fn lemma_spelled_params(s: Seq<ArgWithDefault>, x: At, i: int)
    requires
        all_spelled(walk_params(s, expressions(), x)),
        0 <= i < s.len(),
    ensures
        all_spelled(walk_opt_expr(s[i].def.annotation, expressions(), x)),
        all_spelled(walk_opt_expr(s[i].default, expressions(), x)),
    decreases s.len(),
{
    broadcast use lemma_spelled_parts;

    let rest = s.drop_last();
    if i < s.len() - 1 {
        lemma_spelled_params(rest, x, i);
        assert(rest[i] == s[i]);
    }
}

fn write_exprs<'a>(list: &Vec<Expr>, Ghost(x): Ghost<At<'a>>) -> (r: Vec<String>)
    requires
        all_spelled(walk_exprs(list@, expressions(), x)),
    ensures
        texts(r@) == expr_texts(list@),
{
    let mut out: Vec<String> = Vec::new();
    let mut i: usize = 0;
    while i < list.len()
        invariant
            i <= list@.len(),
            all_spelled(walk_exprs(list@, expressions(), x)),
            texts(out@) == expr_texts(list@.take(i as int)),
        decreases list@.len() - i,
    {
        proof {
            lemma_spelled_exprs(list@, x, i as int);
        }
        let text = write_expr(&list[i], Ghost(x));
        let ghost before = texts(out@);
        out.push(text);
        assert(texts(out@) =~= before.push(text@));
        assert(expr_texts(list@.take(i + 1)) =~= expr_texts(list@.take(i as int)).push(text@));
        i += 1;
    }
    assert(list@.take(i as int) =~= list@);
    out
}

// ── Parameters ──────────────────────────────────────────────────────────────

/// A part that may be absent, behind its introduction.
pub open spec fn opt_part(intro: Seq<char>, e: Option<Box<Expr>>) -> Seq<char> {
    match e {
        Some(e) => intro + expr_text(*e),
        None => seq![],
    }
}

fn write_opt_part<'a>(intro: &str, e: &Option<Box<Expr>>, Ghost(x): Ghost<At<'a>>) -> (r: String)
    requires
        all_spelled(walk_opt_expr(*e, expressions(), x)),
    ensures
        r@ == opt_part(intro@, *e),
{
    match e {
        Some(e) => intro.to_owned().concat(write_expr(e, Ghost(x)).as_str()),
        None => String::new(),
    }
}

/// A parameter with its annotation and its default.
pub open spec fn param_text(a: ArgWithDefault) -> Seq<char> {
    identifier_text(a.def.arg) + opt_part(": "@, a.def.annotation) + opt_part("="@, a.default)
}

/// A list of parameters.
pub open spec fn param_texts(s: Seq<ArgWithDefault>) -> Seq<Seq<char>> {
    s.map_values(|a: ArgWithDefault| param_text(a))
}

fn write_params<'a>(list: &Vec<ArgWithDefault>, Ghost(x): Ghost<At<'a>>, out: &mut Vec<String>)
    requires
        all_spelled(walk_params(list@, expressions(), x)),
    ensures
        texts(final(out)@) == texts(old(out)@) + param_texts(list@),
{
    let ghost start = texts(out@);
    let mut i: usize = 0;
    assert(start =~= start + param_texts(list@.take(0)));
    while i < list.len()
        invariant
            i <= list@.len(),
            all_spelled(walk_params(list@, expressions(), x)),
            texts(out@) == start + param_texts(list@.take(i as int)),
        decreases list@.len() - i,
    {
        proof {
            lemma_spelled_params(list@, x, i as int);
        }
        let a = &list[i];
        let text = name_of(&a.def.arg).to_owned().concat(
            write_opt_part(": ", &a.def.annotation, Ghost(x)).as_str(),
        ).concat(write_opt_part("=", &a.default, Ghost(x)).as_str());
        assert(text@ == param_text(list@[i as int]));
        let ghost before = texts(out@);
        out.push(text);
        assert(texts(out@) =~= before.push(text@));
        assert(param_texts(list@.take(i + 1)) =~= param_texts(list@.take(i as int)).push(text@));
        assert(start + param_texts(list@.take(i as int)).push(text@) =~= before.push(text@));
        i += 1;
    }
    assert(list@.take(i as int) =~= list@);
}

/// A parameter that gathers the remaining arguments, behind its stars.
pub open spec fn starred_text(stars: Seq<char>, a: Arg) -> Seq<char> {
    stars + identifier_text(a.arg) + opt_part(": "@, a.annotation)
}

fn write_starred<'a>(stars: &str, a: &Arg, Ghost(x): Ghost<At<'a>>) -> (r: String)
    requires
        all_spelled(walk_opt_expr(a.annotation, expressions(), x)),
    ensures
        r@ == starred_text(stars@, *a),
{
    stars.to_owned().concat(name_of(&a.arg)).concat(
        write_opt_part(": ", &a.annotation, Ghost(x)).as_str(),
    )
}

/// The parameters of a function, with the markers between positional, ordinary and
/// keyword parameters.
pub open spec fn parameter_list(a: Arguments) -> Seq<Seq<char>> {
    param_texts(a.posonlyargs@) + (if a.posonlyargs@.len() > 0 {
        seq!["/"@]
    } else {
        seq![]
    }) + param_texts(a.args@) + (match a.vararg {
        Some(v) => seq![starred_text("*"@, *v)],
        None => if a.kwonlyargs@.len() > 0 {
            seq!["*"@]
        } else {
            seq![]
        },
    }) + param_texts(a.kwonlyargs@) + (match a.kwarg {
        Some(k) => seq![starred_text("**"@, *k)],
        None => seq![],
    })
}

fn push_part(out: &mut Vec<String>, part: String)
    ensures
        texts(final(out)@) == texts(old(out)@) + seq![part@],
{
    let ghost before = texts(out@);
    out.push(part);
    assert(texts(out@) =~= before + seq![part@]);
}

fn write_parameters<'a>(a: &Arguments, Ghost(x): Ghost<At<'a>>) -> (r: String)
    requires
        all_spelled(walk_arguments(a, expressions(), x)),
    ensures
        r@ == join(parameter_list(*a), ", "@),
{
    broadcast use lemma_spelled_parts;

    let ghost y = below(x);
    let mut parts: Vec<String> = Vec::new();
    let ghost empty: Seq<Seq<char>> = seq![];
    assert(texts(parts@) =~= empty);
    write_params(&a.posonlyargs, Ghost(y), &mut parts);
    assert(empty + param_texts(a.posonlyargs@) =~= param_texts(a.posonlyargs@));
    let ghost before = texts(parts@);
    if a.posonlyargs.len() > 0 {
        push_part(&mut parts, "/".to_owned());
    } else {
        assert(before + empty =~= before);
    }
    write_params(&a.args, Ghost(y), &mut parts);
    let ghost before = texts(parts@);
    match &a.vararg {
        Some(v) => push_part(&mut parts, write_starred("*", v, Ghost(y))),
        None => {
            if a.kwonlyargs.len() > 0 {
                push_part(&mut parts, "*".to_owned());
            } else {
                assert(before + empty =~= before);
            }
        },
    }
    write_params(&a.kwonlyargs, Ghost(y), &mut parts);
    let ghost before = texts(parts@);
    match &a.kwarg {
        Some(k) => push_part(&mut parts, write_starred("**", k, Ghost(y))),
        None => {
            assert(before + empty =~= before);
        },
    }
    joined(&parts, ", ")
}

// ── Simple statements ───────────────────────────────────────────────────────

/// The name of an operator.
pub open spec fn operator_name(op: Operator) -> Seq<char> {
    match op {
        Operator::Add => "Add"@,
        Operator::Sub => "Sub"@,
        Operator::Mult => "Mult"@,
        Operator::MatMult => "MatMult"@,
        Operator::Div => "Div"@,
        Operator::Mod => "Mod"@,
        Operator::Pow => "Pow"@,
        Operator::LShift => "LShift"@,
        Operator::RShift => "RShift"@,
        Operator::BitOr => "BitOr"@,
        Operator::BitXor => "BitXor"@,
        Operator::BitAnd => "BitAnd"@,
        Operator::FloorDiv => "FloorDiv"@,
    }
}

pub fn name_operator(op: &Operator) -> (r: &'static str)
    ensures
        r@ == operator_name(*op),
{
    match op {
        Operator::Add => "Add",
        Operator::Sub => "Sub",
        Operator::Mult => "Mult",
        Operator::MatMult => "MatMult",
        Operator::Div => "Div",
        Operator::Mod => "Mod",
        Operator::Pow => "Pow",
        Operator::LShift => "LShift",
        Operator::RShift => "RShift",
        Operator::BitOr => "BitOr",
        Operator::BitXor => "BitXor",
        Operator::BitAnd => "BitAnd",
        Operator::FloorDiv => "FloorDiv",
    }
}

/// An imported name, and the name that it is given.
pub open spec fn alias_text(a: Alias) -> Seq<char> {
    match a.asname {
        Some(other) => identifier_text(a.name) + " as "@ + identifier_text(other),
        None => identifier_text(a.name),
    }
}

/// A list of imported names.
pub open spec fn alias_texts(s: Seq<Alias>) -> Seq<Seq<char>> {
    s.map_values(|a: Alias| alias_text(a))
}

fn write_aliases(list: &Vec<Alias>) -> (r: Vec<String>)
    ensures
        texts(r@) == alias_texts(list@),
{
    let mut out: Vec<String> = Vec::new();
    let mut i: usize = 0;
    while i < list.len()
        invariant
            i <= list@.len(),
            texts(out@) == alias_texts(list@.take(i as int)),
        decreases list@.len() - i,
    {
        let a = &list[i];
        let name = name_of(&a.name).to_owned();
        let text = match &a.asname {
            Some(other) => name.concat(" as ").concat(name_of(other)),
            None => name,
        };
        assert(text@ == alias_text(list@[i as int]));
        let ghost before = texts(out@);
        out.push(text);
        assert(texts(out@) =~= before.push(text@));
        assert(alias_texts(list@.take(i + 1)) =~= alias_texts(list@.take(i as int)).push(text@));
        i += 1;
    }
    assert(list@.take(i as int) =~= list@);
    out
}

/// A list of names.
pub open spec fn name_texts(s: Seq<Identifier>) -> Seq<Seq<char>> {
    s.map_values(|n: Identifier| identifier_text(n))
}

fn write_names(list: &Vec<Identifier>) -> (r: Vec<String>)
    ensures
        texts(r@) == name_texts(list@),
{
    let mut out: Vec<String> = Vec::new();
    let mut i: usize = 0;
    while i < list.len()
        invariant
            i <= list@.len(),
            texts(out@) == name_texts(list@.take(i as int)),
        decreases list@.len() - i,
    {
        let text = name_of(&list[i]).to_owned();
        let ghost before = texts(out@);
        out.push(text);
        assert(texts(out@) =~= before.push(text@));
        assert(name_texts(list@.take(i + 1)) =~= name_texts(list@.take(i as int)).push(text@));
        i += 1;
    }
    assert(list@.take(i as int) =~= list@);
    out
}

/// A statement that holds no other, without its indentation.
pub open spec fn simple_text(s: &Stmt) -> Seq<char> {
    match s {
        Stmt::Return(n) => "return"@ + opt_part(" "@, n.value),
        Stmt::Delete(n) => "del "@ + join(expr_texts(n.targets@), ", "@),
        Stmt::Assign(n) => join(expr_texts(n.targets@), " = "@) + " = "@ + expr_text(*n.value),
        Stmt::TypeAlias(n) => "type "@ + expr_text(*n.name) + " = "@ + expr_text(*n.value),
        Stmt::AugAssign(n) => expr_text(*n.target) + " "@ + operator_name(n.op) + "= "@
            + expr_text(*n.value),
        Stmt::AnnAssign(n) => expr_text(*n.target) + ": "@ + expr_text(*n.annotation) + opt_part(
            " = "@,
            n.value,
        ),
        Stmt::Raise(n) => match n.exc {
            Some(e) => "raise "@ + expr_text(*e) + opt_part(" from "@, n.cause),
            None => "raise"@,
        },
        Stmt::Assert(n) => "assert "@ + expr_text(*n.test) + opt_part(", "@, n.msg),
        Stmt::Import(n) => "import "@ + join(alias_texts(n.names@), ", "@),
        Stmt::ImportFrom(n) => "from "@ + (match n.module {
            Some(m) => identifier_text(m),
            None => seq![],
        }) + " import "@ + join(alias_texts(n.names@), ", "@),
        Stmt::Global(n) => "global "@ + join(name_texts(n.names@), ", "@),
        Stmt::Nonlocal(n) => "nonlocal "@ + join(name_texts(n.names@), ", "@),
        Stmt::Expr(n) => expr_text(*n.value),
        Stmt::Pass(_) => "pass"@,
        Stmt::Break(_) => "break"@,
        Stmt::Continue(_) => "continue"@,
        _ => seq![],
    }
}

fn write_binding<'a>(s: &'a Stmt, Ghost(x): Ghost<At<'a>>) -> (r: String)
    requires
        s is Delete || s is Assign || s is TypeAlias || s is AugAssign || s is AnnAssign,
        all_spelled(walk_stmt(s, expressions(), x)),
    ensures
        r@ == simple_text(s),
{
    broadcast use lemma_spelled_parts;

    let ghost y = inside(s, x);
    match s {
        Stmt::Delete(n) => "del ".to_owned().concat(
            joined(&write_exprs(&n.targets, Ghost(y)), ", ").as_str(),
        ),
        Stmt::Assign(n) => joined(&write_exprs(&n.targets, Ghost(y)), " = ").concat(" = ").concat(
            write_expr(&n.value, Ghost(y)).as_str(),
        ),
        Stmt::TypeAlias(n) => "type ".to_owned().concat(
            write_expr(&n.name, Ghost(y)).as_str(),
        ).concat(" = ").concat(write_expr(&n.value, Ghost(y)).as_str()),
        Stmt::AugAssign(n) => write_expr(&n.target, Ghost(y)).concat(" ").concat(
            name_operator(&n.op),
        ).concat("= ").concat(write_expr(&n.value, Ghost(y)).as_str()),
        Stmt::AnnAssign(n) => write_expr(&n.target, Ghost(y)).concat(": ").concat(
            write_expr(&n.annotation, Ghost(y)).as_str(),
        ).concat(write_opt_part(" = ", &n.value, Ghost(y)).as_str()),
        _ => vstd::pervasive::unreached(),
    }
}

fn write_simple<'a>(s: &'a Stmt, Ghost(x): Ghost<At<'a>>) -> (r: String)
    requires
        !(s is FunctionDef || s is AsyncFunctionDef || s is ClassDef),
        !(s is For || s is AsyncFor || s is While || s is If),
        !(s is With || s is AsyncWith || s is Match || s is Try || s is TryStar),
        all_spelled(walk_stmt(s, expressions(), x)),
    ensures
        r@ == simple_text(s),
{
    broadcast use lemma_spelled_parts;

    let ghost y = inside(s, x);
    match s {
        Stmt::Delete(_)
        | Stmt::Assign(_)
        | Stmt::TypeAlias(_)
        | Stmt::AugAssign(_)
        | Stmt::AnnAssign(_) => write_binding(s, Ghost(x)),
        Stmt::Return(n) => "return".to_owned().concat(
            write_opt_part(" ", &n.value, Ghost(y)).as_str(),
        ),
        Stmt::Raise(n) => match &n.exc {
            Some(e) => "raise ".to_owned().concat(write_expr(e, Ghost(y)).as_str()).concat(
                write_opt_part(" from ", &n.cause, Ghost(y)).as_str(),
            ),
            None => "raise".to_owned(),
        },
        Stmt::Assert(n) => "assert ".to_owned().concat(
            write_expr(&n.test, Ghost(y)).as_str(),
        ).concat(write_opt_part(", ", &n.msg, Ghost(y)).as_str()),
        Stmt::Import(n) => "import ".to_owned().concat(
            joined(&write_aliases(&n.names), ", ").as_str(),
        ),
        Stmt::ImportFrom(n) => {
            let module = match &n.module {
                Some(m) => name_of(m).to_owned(),
                None => String::new(),
            };
            "from ".to_owned().concat(module.as_str()).concat(" import ").concat(
                joined(&write_aliases(&n.names), ", ").as_str(),
            )
        },
        Stmt::Global(n) => "global ".to_owned().concat(
            joined(&write_names(&n.names), ", ").as_str(),
        ),
        Stmt::Nonlocal(n) => "nonlocal ".to_owned().concat(
            joined(&write_names(&n.names), ", ").as_str(),
        ),
        Stmt::Expr(n) => write_expr(&n.value, Ghost(y)),
        Stmt::Pass(_) => "pass".to_owned(),
        Stmt::Break(_) => "break".to_owned(),
        Stmt::Continue(_) => "continue".to_owned(),
        _ => vstd::pervasive::unreached(),
    }
}

// ── Statements ──────────────────────────────────────────────────────────────

/// One level of indentation further in.
pub open spec fn deeper(pad: Seq<char>) -> Seq<char> {
    pad + "    "@
}

fn indented(pad: &str) -> (r: String)
    ensures
        r@ == deeper(pad@),
{
    pad.to_owned().concat("    ")
}

/// The decorators of a definition, each on a line.
pub open spec fn decorator_text(s: Seq<Expr>, pad: Seq<char>) -> Seq<char>
    decreases s.len(),
{
    if s.len() == 0 {
        seq![]
    } else {
        decorator_text(s.drop_last(), pad) + (pad + "@"@ + expr_text(s.last()) + "\n"@)
    }
}

fn write_decorators<'a>(decorators: &Vec<Expr>, pad: &str, Ghost(x): Ghost<At<'a>>) -> (r: String)
    requires
        all_spelled(walk_exprs(decorators@, expressions(), x)),
    ensures
        r@ == decorator_text(decorators@, pad@),
{
    let mut out = String::new();
    let mut i: usize = 0;
    assert(out@ =~= seq![]);
    while i < decorators.len()
        invariant
            i <= decorators@.len(),
            all_spelled(walk_exprs(decorators@, expressions(), x)),
            out@ == decorator_text(decorators@.take(i as int), pad@),
        decreases decorators@.len() - i,
    {
        proof {
            lemma_spelled_exprs(decorators@, x, i as int);
            assert(decorators@.take(i + 1).drop_last() =~= decorators@.take(i as int));
        }
        let line = pad.to_owned().concat("@").concat(
            write_expr(&decorators[i], Ghost(x)).as_str(),
        ).concat("\n");
        out = out.concat(line.as_str());
        i += 1;
    }
    assert(decorators@.take(i as int) =~= decorators@);
    out
}

/// A context manager, and the target that it is bound to.
pub open spec fn with_item_text(n: WithItem) -> Seq<char> {
    expr_text(n.context_expr) + opt_part(" as "@, n.optional_vars)
}

/// A list of context managers.
pub open spec fn with_item_texts(s: Seq<WithItem>) -> Seq<Seq<char>> {
    s.map_values(|n: WithItem| with_item_text(n))
}

fn write_with_items<'a>(list: &Vec<WithItem>, Ghost(x): Ghost<At<'a>>) -> (r: Vec<String>)
    requires
        all_spelled(walk_with_items(list@, expressions(), x)),
    ensures
        texts(r@) == with_item_texts(list@),
{
    broadcast use lemma_spelled_parts;

    let mut out: Vec<String> = Vec::new();
    let mut i: usize = 0;
    while i < list.len()
        invariant
            i <= list@.len(),
            all_spelled(walk_with_items(list@, expressions(), x)),
            texts(out@) == with_item_texts(list@.take(i as int)),
        decreases list@.len() - i,
    {
        proof {
            broadcast use lemma_spelled_parts;

            lemma_spelled_with_items(list@, x, i as int);
        }
        let n = &list[i];
        let text = write_expr(&n.context_expr, Ghost(below(x))).concat(
            write_opt_part(" as ", &n.optional_vars, Ghost(below(x))).as_str(),
        );
        assert(text@ == with_item_text(list@[i as int]));
        let ghost before = texts(out@);
        out.push(text);
        assert(texts(out@) =~= before.push(text@));
        assert(with_item_texts(list@.take(i + 1)) =~= with_item_texts(list@.take(i as int)).push(
            text@,
        ));
        i += 1;
    }
    assert(list@.take(i as int) =~= list@);
    out
}

/// A block that may be absent, under its heading.
pub open spec fn opt_block(heading: Seq<char>, body: Seq<Stmt>, pad: Seq<char>) -> Seq<char>
    decreases body, 1nat,
{
    if body.len() > 0 {
        pad + heading + ":\n"@ + body_text(body, deeper(pad))
    } else {
        seq![]
    }
}

/// A statement at an indentation: lines that each end in a line feed.
pub open spec fn stmt_text(s: &Stmt, pad: Seq<char>) -> Seq<char>
    decreases s, 0nat,
{
    match s {
        Stmt::FunctionDef(n) => decorator_text(n.decorator_list@, pad) + pad + "def "@
            + identifier_text(n.name) + "("@ + join(parameter_list(*n.args), ", "@) + ")"@
            + opt_part(" -> "@, n.returns) + ":\n"@ + body_text(n.body@, deeper(pad)),
        Stmt::AsyncFunctionDef(n) => decorator_text(n.decorator_list@, pad) + pad + "async def "@
            + identifier_text(n.name) + "("@ + join(parameter_list(*n.args), ", "@) + ")"@
            + opt_part(" -> "@, n.returns) + ":\n"@ + body_text(n.body@, deeper(pad)),
        Stmt::ClassDef(n) => decorator_text(n.decorator_list@, pad) + pad + "class "@
            + identifier_text(n.name) + ":\n"@ + body_text(n.body@, deeper(pad)),
        Stmt::For(n) => pad + "for "@ + expr_text(*n.target) + " in "@ + expr_text(*n.iter)
            + ":\n"@ + body_text(n.body@, deeper(pad)) + opt_block("else"@, n.orelse@, pad),
        Stmt::AsyncFor(n) => pad + "async for "@ + expr_text(*n.target) + " in "@ + expr_text(
            *n.iter,
        ) + ":\n"@ + body_text(n.body@, deeper(pad)) + opt_block("else"@, n.orelse@, pad),
        Stmt::While(n) => pad + "while "@ + expr_text(*n.test) + ":\n"@ + body_text(
            n.body@,
            deeper(pad),
        ) + opt_block("else"@, n.orelse@, pad),
        Stmt::If(n) => pad + "if "@ + expr_text(*n.test) + ":\n"@ + body_text(
            n.body@,
            deeper(pad),
        ) + opt_block("else"@, n.orelse@, pad),
        Stmt::With(n) => pad + "with "@ + join(with_item_texts(n.items@), ", "@) + ":\n"@
            + body_text(n.body@, deeper(pad)),
        Stmt::AsyncWith(n) => pad + "async with "@ + join(with_item_texts(n.items@), ", "@)
            + ":\n"@ + body_text(n.body@, deeper(pad)),
        Stmt::Match(n) => pad + "match "@ + expr_text(*n.subject) + ":\n"@ + cases_text(
            n.cases@,
            pad,
        ),
        Stmt::Try(n) => pad + "try:\n"@ + body_text(n.body@, deeper(pad)) + handlers_text(
            n.handlers@,
            "except"@,
            pad,
        ) + opt_block("else"@, n.orelse@, pad) + opt_block("finally"@, n.finalbody@, pad),
        Stmt::TryStar(n) => pad + "try:\n"@ + body_text(n.body@, deeper(pad)) + handlers_text(
            n.handlers@,
            "except*"@,
            pad,
        ) + opt_block("else"@, n.orelse@, pad) + opt_block("finally"@, n.finalbody@, pad),
        _ => pad + simple_text(s) + "\n"@,
    }
}

/// A list of statements at an indentation.
pub open spec fn body_text(body: Seq<Stmt>, pad: Seq<char>) -> Seq<char>
    decreases body, 0nat,
{
    if body.len() == 0 {
        seq![]
    } else {
        body_text(body.drop_last(), pad) + stmt_text(&body.last(), pad)
    }
}

/// Exception handlers under the given keyword.
pub open spec fn handlers_text(
    handlers: Seq<ExceptHandler>,
    keyword: Seq<char>,
    pad: Seq<char>,
) -> Seq<char>
    decreases handlers, 0nat,
{
    if handlers.len() == 0 {
        seq![]
    } else {
        handlers_text(handlers.drop_last(), keyword, pad) + (match handlers.last() {
            ExceptHandler::ExceptHandler(h) => pad + keyword + opt_part(" "@, h.type_) + ":\n"@
                + body_text(h.body@, deeper(pad)),
        })
    }
}

/// The cases of a `match` statement; patterns and guards are not written.
pub open spec fn cases_text(cases: Seq<MatchCase>, pad: Seq<char>) -> Seq<char>
    decreases cases, 0nat,
{
    if cases.len() == 0 {
        seq![]
    } else {
        cases_text(cases.drop_last(), pad) + (deeper(pad) + "case ...:\n"@ + body_text(
            cases.last().body@,
            deeper(deeper(pad)),
        ))
    }
}

fn write_definition<'a>(s: &'a Stmt, pad: &str, Ghost(x): Ghost<At<'a>>) -> (r: String)
    requires
        s is FunctionDef || s is AsyncFunctionDef || s is ClassDef,
        all_spelled(walk_stmt(s, expressions(), x)),
    ensures
        r@ == stmt_text(s, pad@),
    decreases s, 0nat,
{
    broadcast use lemma_spelled_parts;

    let ghost y = inside(s, x);
    match s {
        Stmt::FunctionDef(n) => write_decorators(&n.decorator_list, pad, Ghost(y)).concat(
            pad,
        ).concat("def ").concat(name_of(&n.name)).concat("(").concat(
            write_parameters(&n.args, Ghost(y)).as_str(),
        ).concat(")").concat(write_opt_part(" -> ", &n.returns, Ghost(y)).as_str()).concat(
            ":\n",
        ).concat(write_body(n.body.as_slice(), indented(pad).as_str(), Ghost(y)).as_str()),
        Stmt::AsyncFunctionDef(n) => write_decorators(&n.decorator_list, pad, Ghost(y)).concat(
            pad,
        ).concat("async def ").concat(name_of(&n.name)).concat("(").concat(
            write_parameters(&n.args, Ghost(y)).as_str(),
        ).concat(")").concat(write_opt_part(" -> ", &n.returns, Ghost(y)).as_str()).concat(
            ":\n",
        ).concat(write_body(n.body.as_slice(), indented(pad).as_str(), Ghost(y)).as_str()),
        Stmt::ClassDef(n) => write_decorators(&n.decorator_list, pad, Ghost(y)).concat(pad).concat(
            "class ",
        ).concat(name_of(&n.name)).concat(":\n").concat(
            write_body(n.body.as_slice(), indented(pad).as_str(), Ghost(y)).as_str(),
        ),
        _ => vstd::pervasive::unreached(),
    }
}

fn write_opt_block<'a>(heading: &str, body: &'a [Stmt], pad: &str, Ghost(x): Ghost<At<'a>>) -> (r:
    String)
    requires
        all_spelled(walk_stmts(body@, expressions(), x)),
    ensures
        r@ == opt_block(heading@, body@, pad@),
    decreases body@, 1nat,
{
    if body.len() > 0 {
        pad.to_owned().concat(heading).concat(":\n").concat(
            write_body(body, indented(pad).as_str(), Ghost(x)).as_str(),
        )
    } else {
        String::new()
    }
}

fn write_loop<'a>(s: &'a Stmt, pad: &str, Ghost(x): Ghost<At<'a>>) -> (r: String)
    requires
        s is For || s is AsyncFor || s is While || s is If,
        all_spelled(walk_stmt(s, expressions(), x)),
    ensures
        r@ == stmt_text(s, pad@),
    decreases s, 0nat,
{
    broadcast use lemma_spelled_parts;

    let ghost y = inside(s, x);
    match s {
        Stmt::For(n) => pad.to_owned().concat("for ").concat(
            write_expr(&n.target, Ghost(y)).as_str(),
        ).concat(" in ").concat(write_expr(&n.iter, Ghost(y)).as_str()).concat(":\n").concat(
            write_body(n.body.as_slice(), indented(pad).as_str(), Ghost(y)).as_str(),
        ).concat(write_opt_block("else", n.orelse.as_slice(), pad, Ghost(y)).as_str()),
        Stmt::AsyncFor(n) => pad.to_owned().concat("async for ").concat(
            write_expr(&n.target, Ghost(y)).as_str(),
        ).concat(" in ").concat(write_expr(&n.iter, Ghost(y)).as_str()).concat(":\n").concat(
            write_body(n.body.as_slice(), indented(pad).as_str(), Ghost(y)).as_str(),
        ).concat(write_opt_block("else", n.orelse.as_slice(), pad, Ghost(y)).as_str()),
        Stmt::While(n) => pad.to_owned().concat("while ").concat(
            write_expr(&n.test, Ghost(y)).as_str(),
        ).concat(":\n").concat(
            write_body(n.body.as_slice(), indented(pad).as_str(), Ghost(y)).as_str(),
        ).concat(write_opt_block("else", n.orelse.as_slice(), pad, Ghost(y)).as_str()),
        Stmt::If(n) => pad.to_owned().concat("if ").concat(
            write_expr(&n.test, Ghost(y)).as_str(),
        ).concat(":\n").concat(
            write_body(n.body.as_slice(), indented(pad).as_str(), Ghost(y)).as_str(),
        ).concat(write_opt_block("else", n.orelse.as_slice(), pad, Ghost(y)).as_str()),
        _ => vstd::pervasive::unreached(),
    }
}

fn write_block<'a>(s: &'a Stmt, pad: &str, Ghost(x): Ghost<At<'a>>) -> (r: String)
    requires
        s is With || s is AsyncWith || s is Match || s is Try || s is TryStar,
        all_spelled(walk_stmt(s, expressions(), x)),
    ensures
        r@ == stmt_text(s, pad@),
    decreases s, 0nat,
{
    broadcast use lemma_spelled_parts;

    let ghost y = inside(s, x);
    match s {
        Stmt::With(n) => pad.to_owned().concat("with ").concat(
            joined(&write_with_items(&n.items, Ghost(y)), ", ").as_str(),
        ).concat(":\n").concat(
            write_body(n.body.as_slice(), indented(pad).as_str(), Ghost(y)).as_str(),
        ),
        Stmt::AsyncWith(n) => pad.to_owned().concat("async with ").concat(
            joined(&write_with_items(&n.items, Ghost(y)), ", ").as_str(),
        ).concat(":\n").concat(
            write_body(n.body.as_slice(), indented(pad).as_str(), Ghost(y)).as_str(),
        ),
        Stmt::Match(n) => pad.to_owned().concat("match ").concat(
            write_expr(&n.subject, Ghost(y)).as_str(),
        ).concat(":\n").concat(write_cases(n.cases.as_slice(), pad, Ghost(y)).as_str()),
        Stmt::Try(n) => pad.to_owned().concat("try:\n").concat(
            write_body(n.body.as_slice(), indented(pad).as_str(), Ghost(y)).as_str(),
        ).concat(write_handlers(n.handlers.as_slice(), "except", pad, Ghost(y)).as_str()).concat(
            write_opt_block("else", n.orelse.as_slice(), pad, Ghost(y)).as_str(),
        ).concat(write_opt_block("finally", n.finalbody.as_slice(), pad, Ghost(y)).as_str()),
        Stmt::TryStar(n) => pad.to_owned().concat("try:\n").concat(
            write_body(n.body.as_slice(), indented(pad).as_str(), Ghost(y)).as_str(),
        ).concat(write_handlers(n.handlers.as_slice(), "except*", pad, Ghost(y)).as_str()).concat(
            write_opt_block("else", n.orelse.as_slice(), pad, Ghost(y)).as_str(),
        ).concat(write_opt_block("finally", n.finalbody.as_slice(), pad, Ghost(y)).as_str()),
        _ => vstd::pervasive::unreached(),
    }
}

fn write_handlers<'a>(
    handlers: &'a [ExceptHandler],
    keyword: &str,
    pad: &str,
    Ghost(x): Ghost<At<'a>>,
) -> (r: String)
    requires
        all_spelled(walk_handlers(handlers@, expressions(), x)),
    ensures
        r@ == handlers_text(handlers@, keyword@, pad@),
    decreases handlers@, 0nat,
{
    broadcast use lemma_spelled_parts;

    let mut out = String::new();
    let mut i: usize = 0;
    assert(out@ =~= seq![]);
    while i < handlers.len()
        invariant
            i <= handlers@.len(),
            all_spelled(walk_handlers(handlers@, expressions(), x)),
            out@ == handlers_text(handlers@.take(i as int), keyword@, pad@),
        decreases handlers@.len() - i,
    {
        proof {
            broadcast use lemma_spelled_parts;

            lemma_spelled_handlers(handlers@, x, i as int);
            assert(handlers@.take(i + 1).drop_last() =~= handlers@.take(i as int));
        }
        let ExceptHandler::ExceptHandler(h) = &handlers[i];
        let text = pad.to_owned().concat(keyword).concat(
            write_opt_part(" ", &h.type_, Ghost(within(x))).as_str(),
        ).concat(":\n").concat(
            write_body(h.body.as_slice(), indented(pad).as_str(), Ghost(within(x))).as_str(),
        );
        out = out.concat(text.as_str());
        i += 1;
    }
    assert(handlers@.take(i as int) =~= handlers@);
    out
}

fn write_cases<'a>(cases: &'a [MatchCase], pad: &str, Ghost(x): Ghost<At<'a>>) -> (r: String)
    requires
        all_spelled(walk_cases(cases@, expressions(), x)),
    ensures
        r@ == cases_text(cases@, pad@),
    decreases cases@, 0nat,
{
    broadcast use lemma_spelled_parts;

    let case_pad = indented(pad);
    let body_pad = indented(case_pad.as_str());
    let mut out = String::new();
    let mut i: usize = 0;
    assert(out@ =~= seq![]);
    while i < cases.len()
        invariant
            i <= cases@.len(),
            all_spelled(walk_cases(cases@, expressions(), x)),
            case_pad@ == deeper(pad@),
            body_pad@ == deeper(deeper(pad@)),
            out@ == cases_text(cases@.take(i as int), pad@),
        decreases cases@.len() - i,
    {
        proof {
            broadcast use lemma_spelled_parts;

            lemma_spelled_cases(cases@, x, i as int);
            assert(cases@.take(i + 1).drop_last() =~= cases@.take(i as int));
        }
        let text = case_pad.clone().concat("case ...:\n").concat(
            write_body(cases[i].body.as_slice(), body_pad.as_str(), Ghost(below(x))).as_str(),
        );
        out = out.concat(text.as_str());
        i += 1;
    }
    assert(cases@.take(i as int) =~= cases@);
    out
}

fn write_stmt<'a>(s: &'a Stmt, pad: &str, Ghost(x): Ghost<At<'a>>) -> (r: String)
    requires
        all_spelled(walk_stmt(s, expressions(), x)),
    ensures
        r@ == stmt_text(s, pad@),
    decreases s, 1nat,
{
    match s {
        Stmt::FunctionDef(_) | Stmt::AsyncFunctionDef(_) | Stmt::ClassDef(_) => write_definition(
            s,
            pad,
            Ghost(x),
        ),
        Stmt::For(_) | Stmt::AsyncFor(_) | Stmt::While(_) | Stmt::If(_) => write_loop(
            s,
            pad,
            Ghost(x),
        ),
        Stmt::With(_)
        | Stmt::AsyncWith(_)
        | Stmt::Match(_)
        | Stmt::Try(_)
        | Stmt::TryStar(_) => write_block(s, pad, Ghost(x)),
        _ => pad.to_owned().concat(write_simple(s, Ghost(x)).as_str()).concat("\n"),
    }
}

fn write_body<'a>(body: &'a [Stmt], pad: &str, Ghost(x): Ghost<At<'a>>) -> (r: String)
    requires
        all_spelled(walk_stmts(body@, expressions(), x)),
    ensures
        r@ == body_text(body@, pad@),
    decreases body@, 0nat,
{
    let mut out = String::new();
    let mut i: usize = 0;
    assert(out@ =~= seq![]);
    while i < body.len()
        invariant
            i <= body@.len(),
            all_spelled(walk_stmts(body@, expressions(), x)),
            out@ == body_text(body@.take(i as int), pad@),
        decreases body@.len() - i,
    {
        proof {
            lemma_spelled_stmts(body@, x, i as int);
            assert(body@.take(i + 1).drop_last() =~= body@.take(i as int));
        }
        out = out.concat(write_stmt(&body[i], pad, Ghost(x)).as_str());
        i += 1;
    }
    assert(body@.take(i as int) =~= body@);
    out
}

/// A function definition, its decorators and its header included, as source text.
pub fn unparse_function(stmt: &Stmt) -> (r: String)
    requires
        writable(stmt),
    ensures
        r@ == stmt_text(stmt, seq![]),
{
    let pad = String::new();
    assert(pad@ =~= seq![]);
    write_stmt(stmt, pad.as_str(), Ghost(outset()))
}

/// A block as source text.
pub fn unparse_body(body: &[Stmt]) -> (r: String)
    requires
        block_writable(body@),
    ensures
        r@ == body_text(body@, seq![]),
{
    let pad = String::new();
    assert(pad@ =~= seq![]);
    write_body(body, pad.as_str(), Ghost(outset()))
}

/// The text of a block is the text of its parts, one behind the other.
pub proof fn law_blocks_are_written_in_parts(a: Seq<Stmt>, b: Seq<Stmt>, pad: Seq<char>)
    ensures
        body_text(a + b, pad) == body_text(a, pad) + body_text(b, pad),
    decreases b.len(),
{
    if b.len() == 0 {
        assert(a + b =~= a);
        assert(body_text(a, pad) + body_text(b, pad) =~= body_text(a, pad));
    } else {
        assert((a + b).drop_last() =~= a + b.drop_last());
        law_blocks_are_written_in_parts(a, b.drop_last(), pad);
        assert(body_text(a + b, pad) =~= body_text(a, pad) + body_text(b, pad));
    }
}

/// Whether a text ends in a line feed.
pub open spec fn ends_line(t: Seq<char>) -> bool {
    t.len() > 0 && t.last() == '\n'
}

broadcast proof fn lemma_line_ends(t: Seq<char>, u: Seq<char>)
    ensures
        ends_line(u) || (ends_line(t) && u.len() == 0) ==> #[trigger] ends_line(t + u),
{
    if u.len() > 0 {
        assert((t + u).last() == u.last());
    } else {
        assert(t + u =~= t);
    }
}

broadcast proof fn lemma_beginning_stays(pad: Seq<char>, t: Seq<char>, u: Seq<char>)
    ensures
        pad.is_prefix_of(t) ==> #[trigger] pad.is_prefix_of(t + u),
{
    if pad.is_prefix_of(t) {
        assert((t + u).subrange(0, pad.len() as int) =~= t.subrange(0, pad.len() as int));
    }
}

proof fn lemma_decorators_begin(list: Seq<Expr>, pad: Seq<char>)
    ensures
        pad.is_prefix_of(decorator_text(list, pad) + pad),
    decreases list.len(),
{
    broadcast use lemma_beginning_stays;

    if list.len() == 0 {
        assert(decorator_text(list, pad) + pad =~= pad);
        assert(pad =~= pad.subrange(0, pad.len() as int));
    } else {
        let rest = decorator_text(list.drop_last(), pad);
        lemma_decorators_begin(list.drop_last(), pad);
        let own = "@"@ + expr_text(list.last()) + "\n"@;
        assert(decorator_text(list, pad) + pad =~= (rest + pad) + (own + pad));
    }
}

proof fn lemma_block_ends(body: Seq<Stmt>, pad: Seq<char>)
    ensures
        body.len() > 0 ==> ends_line(body_text(body, pad)),
        body.len() == 0 ==> body_text(body, pad).len() == 0,
    decreases body, 0nat,
{
    broadcast use lemma_line_ends;

    if body.len() > 0 {
        law_statements_are_lines(&body.last(), pad);
    }
}

proof fn lemma_opt_block_ends(heading: Seq<char>, body: Seq<Stmt>, pad: Seq<char>)
    ensures
        body.len() > 0 ==> ends_line(opt_block(heading, body, pad)),
        body.len() == 0 ==> opt_block(heading, body, pad).len() == 0,
    decreases body, 1nat,
{
    broadcast use lemma_line_ends;

    lemma_block_ends(body, deeper(pad));
}

proof fn lemma_handlers_end(handlers: Seq<ExceptHandler>, keyword: Seq<char>, pad: Seq<char>)
    ensures
        handlers.len() > 0 ==> ends_line(handlers_text(handlers, keyword, pad)),
        handlers.len() == 0 ==> handlers_text(handlers, keyword, pad).len() == 0,
    decreases handlers, 0nat,
{
    broadcast use lemma_line_ends;

    if handlers.len() > 0 {
        reveal_strlit(":\n");
        match handlers.last() {
            ExceptHandler::ExceptHandler(h) => {
                lemma_block_ends(h.body@, deeper(pad));
                assert(ends_line(":\n"@));
            },
        }
    }
}

proof fn lemma_cases_end(cases: Seq<MatchCase>, pad: Seq<char>)
    ensures
        cases.len() > 0 ==> ends_line(cases_text(cases, pad)),
        cases.len() == 0 ==> cases_text(cases, pad).len() == 0,
    decreases cases, 0nat,
{
    broadcast use lemma_line_ends;

    if cases.len() > 0 {
        reveal_strlit("case ...:\n");
        lemma_block_ends(cases.last().body@, deeper(deeper(pad)));
        assert(ends_line("case ...:\n"@));
    }
}

/// The text of a statement begins with its indentation and ends in a line feed.
pub proof fn law_statements_are_lines(s: &Stmt, pad: Seq<char>)
    ensures
        pad.is_prefix_of(stmt_text(s, pad)),
        stmt_text(s, pad).len() > 0,
        stmt_text(s, pad).last() == '\n',
    decreases s, 0nat,
{
    broadcast use {lemma_line_ends, lemma_beginning_stays};

    let text = stmt_text(s, pad);
    let inner = deeper(pad);
    reveal_strlit("\n");
    reveal_strlit(":\n");
    reveal_strlit("try:\n");
    assert(ends_line("\n"@));
    assert(ends_line(":\n"@));
    assert(ends_line("try:\n"@));
    assert(pad.is_prefix_of(pad)) by {
        assert(pad =~= pad.subrange(0, pad.len() as int));
    }
    match s {
        Stmt::FunctionDef(n) => {
            lemma_decorators_begin(n.decorator_list@, pad);
            lemma_block_ends(n.body@, inner);
        },
        Stmt::AsyncFunctionDef(n) => {
            lemma_decorators_begin(n.decorator_list@, pad);
            lemma_block_ends(n.body@, inner);
        },
        Stmt::ClassDef(n) => {
            lemma_decorators_begin(n.decorator_list@, pad);
            lemma_block_ends(n.body@, inner);
        },
        Stmt::For(n) => {
            lemma_block_ends(n.body@, inner);
            lemma_opt_block_ends("else"@, n.orelse@, pad);
        },
        Stmt::AsyncFor(n) => {
            lemma_block_ends(n.body@, inner);
            lemma_opt_block_ends("else"@, n.orelse@, pad);
        },
        Stmt::While(n) => {
            lemma_block_ends(n.body@, inner);
            lemma_opt_block_ends("else"@, n.orelse@, pad);
        },
        Stmt::If(n) => {
            lemma_block_ends(n.body@, inner);
            lemma_opt_block_ends("else"@, n.orelse@, pad);
        },
        Stmt::With(n) => lemma_block_ends(n.body@, inner),
        Stmt::AsyncWith(n) => lemma_block_ends(n.body@, inner),
        Stmt::Match(n) => lemma_cases_end(n.cases@, pad),
        Stmt::Try(n) => {
            lemma_block_ends(n.body@, inner);
            lemma_handlers_end(n.handlers@, "except"@, pad);
            lemma_opt_block_ends("else"@, n.orelse@, pad);
            lemma_opt_block_ends("finally"@, n.finalbody@, pad);
        },
        Stmt::TryStar(n) => {
            lemma_block_ends(n.body@, inner);
            lemma_handlers_end(n.handlers@, "except*"@, pad);
            lemma_opt_block_ends("else"@, n.orelse@, pad);
            lemma_opt_block_ends("finally"@, n.finalbody@, pad);
        },
        _ => {},
    }
    assert(ends_line(text));
}

} // verus!
