//! How statements are spelled: which words stand where, and what stands under what.

use crate::syntax::identifier_text;
use crate::text::join;
use crate::unparse::{
    alias_text, alias_texts, body_text, cases_text, decorator_text, expr_text, expr_texts,
    handlers_text, name_texts, operator_name, parameter_list, simple_text, stmt_text,
    with_item_text, with_item_texts,
};
use rustpython_ast::{
    Alias, Arg, ArgWithDefault, Arguments, ExceptHandler, Expr, Identifier, MatchCase, Operator,
    Stmt, WithItem,
};
use vstd::prelude::*;
use vstd::string::*;

verus! {

/// A block under its heading: the block stands four blanks further in.
pub open spec fn under(pad: Seq<char>, head: Seq<char>, body: Seq<Stmt>) -> Seq<char> {
    pad + head + ":\n"@ + body_text(body, pad + "    "@)
}

/// A block under its heading, or nothing where there are no statements in it.
pub open spec fn under_if_any(pad: Seq<char>, head: Seq<char>, body: Seq<Stmt>) -> Seq<char> {
    if body.len() == 0 {
        seq![]
    } else {
        under(pad, head, body)
    }
}

/// A part behind its introduction, or nothing where it is absent.
pub open spec fn behind(intro: Seq<char>, e: Option<Box<Expr>>) -> Seq<char> {
    match e {
        Some(e) => intro + expr_text(*e),
        None => seq![],
    }
}

/// The head of a function: its name, its parameters in brackets, and what it returns behind an
/// arrow.
pub open spec fn function_head(
    name: Identifier,
    args: Arguments,
    result: Option<Box<Expr>>,
) -> Seq<char> {
    identifier_text(name) + "("@ + join(parameter_list(args), ", "@) + ")"@ + behind(
        " -> "@,
        result,
    )
}

/// A loop, a branch, a context or a class is its heading with its block under it; `else` and
/// `finally` follow where there is something in them. The decorators of a definition come before
/// it.
pub proof fn law_blocks_stand_under_their_headings(s: &Stmt, pad: Seq<char>)
    ensures
        match s {
            Stmt::For(n) => stmt_text(s, pad) == under(
                pad,
                "for "@ + expr_text(*n.target) + " in "@ + expr_text(*n.iter),
                n.body@,
            ) + under_if_any(pad, "else"@, n.orelse@),
            Stmt::AsyncFor(n) => stmt_text(s, pad) == under(
                pad,
                "async for "@ + expr_text(*n.target) + " in "@ + expr_text(*n.iter),
                n.body@,
            ) + under_if_any(pad, "else"@, n.orelse@),
            Stmt::While(n) => stmt_text(s, pad) == under(
                pad,
                "while "@ + expr_text(*n.test),
                n.body@,
            ) + under_if_any(pad, "else"@, n.orelse@),
            Stmt::If(n) => stmt_text(s, pad) == under(pad, "if "@ + expr_text(*n.test), n.body@)
                + under_if_any(pad, "else"@, n.orelse@),
            Stmt::With(n) => stmt_text(s, pad) == under(
                pad,
                "with "@ + join(with_item_texts(n.items@), ", "@),
                n.body@,
            ),
            Stmt::AsyncWith(n) => stmt_text(s, pad) == under(
                pad,
                "async with "@ + join(with_item_texts(n.items@), ", "@),
                n.body@,
            ),
            Stmt::ClassDef(n) => stmt_text(s, pad) == decorator_text(n.decorator_list@, pad)
                + under(pad, "class "@ + identifier_text(n.name), n.body@),
            Stmt::FunctionDef(n) => stmt_text(s, pad) == decorator_text(n.decorator_list@, pad)
                + under(pad, "def "@ + function_head(n.name, *n.args, n.returns), n.body@),
            Stmt::AsyncFunctionDef(n) => stmt_text(s, pad) == decorator_text(
                n.decorator_list@,
                pad,
            ) + under(pad, "async def "@ + function_head(n.name, *n.args, n.returns), n.body@),
            Stmt::Try(n) => stmt_text(s, pad) == under(pad, "try"@, n.body@) + handlers_text(
                n.handlers@,
                "except"@,
                pad,
            ) + under_if_any(pad, "else"@, n.orelse@) + under_if_any(
                pad,
                "finally"@,
                n.finalbody@,
            ),
            Stmt::TryStar(n) => stmt_text(s, pad) == under(pad, "try"@, n.body@) + handlers_text(
                n.handlers@,
                "except*"@,
                pad,
            ) + under_if_any(pad, "else"@, n.orelse@) + under_if_any(
                pad,
                "finally"@,
                n.finalbody@,
            ),
            Stmt::Match(n) => stmt_text(s, pad) == pad + "match "@ + expr_text(*n.subject) + ":\n"@
                + cases_text(n.cases@, pad),
            _ => true,
        },
{
    match s {
        Stmt::For(n) => {
            assert(stmt_text(s, pad) =~= under(
                pad,
                "for "@ + expr_text(*n.target) + " in "@ + expr_text(*n.iter),
                n.body@,
            ) + under_if_any(pad, "else"@, n.orelse@));
        },
        Stmt::AsyncFor(n) => {
            assert(stmt_text(s, pad) =~= under(
                pad,
                "async for "@ + expr_text(*n.target) + " in "@ + expr_text(*n.iter),
                n.body@,
            ) + under_if_any(pad, "else"@, n.orelse@));
        },
        Stmt::While(n) => {
            assert(stmt_text(s, pad) =~= under(pad, "while "@ + expr_text(*n.test), n.body@)
                + under_if_any(pad, "else"@, n.orelse@));
        },
        Stmt::If(n) => {
            assert(stmt_text(s, pad) =~= under(pad, "if "@ + expr_text(*n.test), n.body@)
                + under_if_any(pad, "else"@, n.orelse@));
        },
        Stmt::With(n) => {
            assert(stmt_text(s, pad) =~= under(
                pad,
                "with "@ + join(with_item_texts(n.items@), ", "@),
                n.body@,
            ));
        },
        Stmt::AsyncWith(n) => {
            assert(stmt_text(s, pad) =~= under(
                pad,
                "async with "@ + join(with_item_texts(n.items@), ", "@),
                n.body@,
            ));
        },
        Stmt::ClassDef(n) => {
            assert(stmt_text(s, pad) =~= decorator_text(n.decorator_list@, pad) + under(
                pad,
                "class "@ + identifier_text(n.name),
                n.body@,
            ));
        },
        Stmt::FunctionDef(n) => {
            assert(stmt_text(s, pad) =~= decorator_text(n.decorator_list@, pad) + under(
                pad,
                "def "@ + function_head(n.name, *n.args, n.returns),
                n.body@,
            ));
        },
        Stmt::AsyncFunctionDef(n) => {
            assert(stmt_text(s, pad) =~= decorator_text(n.decorator_list@, pad) + under(
                pad,
                "async def "@ + function_head(n.name, *n.args, n.returns),
                n.body@,
            ));
        },
        Stmt::Try(n) => {
            lemma_try();
            assert(stmt_text(s, pad) =~= under(pad, "try"@, n.body@) + handlers_text(
                n.handlers@,
                "except"@,
                pad,
            ) + under_if_any(pad, "else"@, n.orelse@) + under_if_any(
                pad,
                "finally"@,
                n.finalbody@,
            ));
        },
        Stmt::TryStar(n) => {
            lemma_try();
            assert(stmt_text(s, pad) =~= under(pad, "try"@, n.body@) + handlers_text(
                n.handlers@,
                "except*"@,
                pad,
            ) + under_if_any(pad, "else"@, n.orelse@) + under_if_any(
                pad,
                "finally"@,
                n.finalbody@,
            ));
        },
        _ => {},
    }
}

proof fn lemma_try()
    ensures
        "try:\n"@ == "try"@ + ":\n"@,
        "case ...:\n"@ == "case ..."@ + ":\n"@,
{
    reveal_strlit("try:\n");
    reveal_strlit("try");
    reveal_strlit("case ...:\n");
    reveal_strlit("case ...");
    reveal_strlit(":\n");
    assert("try:\n"@ =~= "try"@ + ":\n"@);
    assert("case ...:\n"@ =~= "case ..."@ + ":\n"@);
}

/// Handlers, cases and decorators come one behind the other: a handler names what it catches, a
/// case stands four blanks further in than its `match`, a decorator has a line of its own.
pub proof fn law_clauses_follow_one_another(
    handlers: Seq<ExceptHandler>,
    handler: ExceptHandler,
    cases: Seq<MatchCase>,
    case: MatchCase,
    decorators: Seq<Expr>,
    decorator: Expr,
    keyword: Seq<char>,
    pad: Seq<char>,
)
    ensures
        handlers_text(handlers.push(handler), keyword, pad) == handlers_text(
            handlers,
            keyword,
            pad,
        ) + (match handler {
            ExceptHandler::ExceptHandler(h) => under(pad, keyword + behind(" "@, h.type_), h.body@),
        }),
        cases_text(cases.push(case), pad) == cases_text(cases, pad) + under(
            pad + "    "@,
            "case ..."@,
            case.body@,
        ),
        decorator_text(decorators.push(decorator), pad) == decorator_text(decorators, pad) + pad
            + "@"@ + expr_text(decorator) + "\n"@,
        handlers_text(seq![], keyword, pad).len() == 0,
        cases_text(seq![], pad).len() == 0,
        decorator_text(seq![], pad).len() == 0,
{
    lemma_try();
    assert(handlers.push(handler).drop_last() =~= handlers);
    assert(cases.push(case).drop_last() =~= cases);
    assert(decorators.push(decorator).drop_last() =~= decorators);
    match handler {
        ExceptHandler::ExceptHandler(h) => {
            assert(handlers_text(handlers.push(handler), keyword, pad) =~= handlers_text(
                handlers,
                keyword,
                pad,
            ) + under(pad, keyword + behind(" "@, h.type_), h.body@));
        },
    }
    assert(cases_text(cases.push(case), pad) =~= cases_text(cases, pad) + under(
        pad + "    "@,
        "case ..."@,
        case.body@,
    ));
    assert(decorator_text(decorators.push(decorator), pad) =~= decorator_text(decorators, pad)
        + pad + "@"@ + expr_text(decorator) + "\n"@);
}

/// A statement that holds no other is a line: its words and the texts of its expressions.
pub proof fn law_plain_statements_are_spelled(s: &Stmt, pad: Seq<char>)
    ensures
        match s {
            Stmt::Pass(_) => stmt_text(s, pad) == pad + "pass"@ + "\n"@,
            Stmt::Break(_) => stmt_text(s, pad) == pad + "break"@ + "\n"@,
            Stmt::Continue(_) => stmt_text(s, pad) == pad + "continue"@ + "\n"@,
            Stmt::Expr(n) => stmt_text(s, pad) == pad + expr_text(*n.value) + "\n"@,
            Stmt::Return(n) => stmt_text(s, pad) == match n.value {
                Some(e) => pad + ("return"@ + (" "@ + expr_text(*e))) + "\n"@,
                None => pad + "return"@ + "\n"@,
            },
            Stmt::Delete(n) => stmt_text(s, pad) == pad + ("del "@ + join(
                expr_texts(n.targets@),
                ", "@,
            )) + "\n"@,
            Stmt::Assign(n) => stmt_text(s, pad) == pad + (join(expr_texts(n.targets@), " = "@)
                + " = "@ + expr_text(*n.value)) + "\n"@,
            Stmt::AugAssign(n) => stmt_text(s, pad) == pad + (expr_text(*n.target) + " "@
                + operator_name(n.op) + "= "@ + expr_text(*n.value)) + "\n"@,
            Stmt::AnnAssign(n) => stmt_text(s, pad) == pad + (expr_text(*n.target) + ": "@
                + expr_text(*n.annotation) + behind(" = "@, n.value)) + "\n"@,
            Stmt::TypeAlias(n) => stmt_text(s, pad) == pad + ("type "@ + expr_text(*n.name)
                + " = "@ + expr_text(*n.value)) + "\n"@,
            Stmt::Raise(n) => stmt_text(s, pad) == match n.exc {
                Some(e) => pad + ("raise "@ + expr_text(*e) + behind(" from "@, n.cause)) + "\n"@,
                None => pad + "raise"@ + "\n"@,
            },
            Stmt::Assert(n) => stmt_text(s, pad) == pad + ("assert "@ + expr_text(*n.test)
                + behind(", "@, n.msg)) + "\n"@,
            Stmt::Import(n) => stmt_text(s, pad) == pad + ("import "@ + join(
                alias_texts(n.names@),
                ", "@,
            )) + "\n"@,
            Stmt::ImportFrom(n) => stmt_text(s, pad) == pad + ("from "@ + (match n.module {
                Some(m) => identifier_text(m),
                None => seq![],
            }) + " import "@ + join(alias_texts(n.names@), ", "@)) + "\n"@,
            Stmt::Global(n) => stmt_text(s, pad) == pad + ("global "@ + join(
                name_texts(n.names@),
                ", "@,
            )) + "\n"@,
            Stmt::Nonlocal(n) => stmt_text(s, pad) == pad + ("nonlocal "@ + join(
                name_texts(n.names@),
                ", "@,
            )) + "\n"@,
            _ => true,
        },
{
    match s {
        Stmt::Return(n) => {
            assert(n.value is None ==> simple_text(s) =~= "return"@);
        },
        Stmt::AnnAssign(_) | Stmt::Raise(_) | Stmt::Assert(_) => {
            assert(simple_text(s) =~= simple_text(s));
        },
        _ => {},
    }
}

/// A parameter: its name, its annotation behind a colon, and its default behind a sign of
/// equality.
pub open spec fn parameter(p: ArgWithDefault) -> Seq<char> {
    identifier_text(p.def.arg) + behind(": "@, p.def.annotation) + behind("="@, p.default)
}

/// A parameter that gathers arguments, behind its stars.
pub open spec fn gathering(stars: Seq<char>, a: Arg) -> Seq<char> {
    stars + identifier_text(a.arg) + behind(": "@, a.annotation)
}

/// The parameters come in their order: positional ones and a slash, ordinary ones, the one that
/// gathers positional arguments or a star where keyword parameters follow, keyword parameters,
/// and the one that gathers keyword arguments.
pub proof fn law_parameters_come_in_order(a: Arguments, i: int)
    ensures
        ({
            let list = parameter_list(a);
            let slash = if a.posonlyargs@.len() > 0 {
                1int
            } else {
                0int
            };
            let star = if a.vararg is Some || a.kwonlyargs@.len() > 0 {
                1int
            } else {
                0int
            };
            let ordinary = a.posonlyargs@.len() + slash;
            let keyword = ordinary + a.args@.len() + star;
            &&& list.len() == keyword + a.kwonlyargs@.len() + if a.kwarg is Some {
                1int
            } else {
                0int
            }
            &&& 0 <= i < a.posonlyargs@.len() ==> list[i] == parameter(a.posonlyargs@[i])
            &&& slash == 1 ==> list[a.posonlyargs@.len() as int] == "/"@
            &&& 0 <= i < a.args@.len() ==> list[ordinary + i] == parameter(a.args@[i])
            &&& a.vararg matches Some(v) ==> list[ordinary + a.args@.len()] == gathering("*"@, *v)
            &&& a.vararg is None && a.kwonlyargs@.len() > 0 ==> list[ordinary + a.args@.len()]
                == "*"@
            &&& 0 <= i < a.kwonlyargs@.len() ==> list[keyword + i] == parameter(a.kwonlyargs@[i])
            &&& a.kwarg matches Some(k) ==> list.last() == gathering("**"@, *k)
        }),
{
}

/// What an import names, and what a context manager is bound to, stands behind `as`.
pub proof fn law_other_names_stand_behind_as(a: Alias, w: WithItem)
    ensures
        alias_text(a) == match a.asname {
            Some(other) => identifier_text(a.name) + " as "@ + identifier_text(other),
            None => identifier_text(a.name),
        },
        with_item_text(w) == expr_text(w.context_expr) + behind(" as "@, w.optional_vars),
{
}

/// Lists are spelled item by item, in their order.
pub proof fn law_lists_are_spelled_in_order(
    expressions: Seq<Expr>,
    aliases: Seq<Alias>,
    names: Seq<Identifier>,
    items: Seq<WithItem>,
    i: int,
)
    ensures
        expr_texts(expressions).len() == expressions.len(),
        alias_texts(aliases).len() == aliases.len(),
        name_texts(names).len() == names.len(),
        with_item_texts(items).len() == items.len(),
        0 <= i < expressions.len() ==> expr_texts(expressions)[i] == expr_text(expressions[i]),
        0 <= i < aliases.len() ==> alias_texts(aliases)[i] == alias_text(aliases[i]),
        0 <= i < names.len() ==> name_texts(names)[i] == identifier_text(names[i]),
        0 <= i < items.len() ==> with_item_texts(items)[i] == with_item_text(items[i]),
{
}

/// The sign of an operator is spelled by its name.
pub proof fn law_operators_are_spelled_by_name(op: Operator)
    ensures
        operator_name(op) == match op {
            Operator::Add => "Add"@,
            Operator::Sub => "Sub"@,
            Operator::Mult => "Mult"@,
            Operator::MatMult => "MatMult"@,
            Operator::Div => "Div"@,
            Operator::Mod => "Mod"@,
            Operator::Pow => "Pow"@,
            Operator::LShift => "LShift"@,
            Operator::RShift => "RShift"@,
            Operator::BitOr => "BitOr"@,
            Operator::BitXor => "BitXor"@,
            Operator::BitAnd => "BitAnd"@,
            Operator::FloorDiv => "FloorDiv"@,
        },
{
}

} // verus!
