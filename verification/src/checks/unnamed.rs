//! Which literals and annotations the checks of literals report.

use crate::ast_helpers::{def_name, functions, line_in};
use crate::checks::common::{body_of, SiteView};
use crate::checks::literals::{
    annotated, bare, bare_dicts, bare_dicts_arguments, compared_string, each_bare_dict,
    each_magic_function, each_magic_number, each_magic_string, each_string_comparison,
    each_untyped_lines, increasing, insert_line, magic_numbers, magic_strings, occurrences,
    string_comparisons, unexplained, untyped_dict, untyped_dicts,
};
use crate::checks::reporting::{has_one_at, is_at};
use crate::definitions::law_functions_stand_in_the_body;
use crate::models::{IssueView, Severity};
use crate::order::lemma_flat_map_contains;
use crate::syntax::{float_texts, identifier_text, integer_text, range_start};
use crate::walk::{
    expressions, inside, outset, walk_arguments, walk_expr, walk_stmt, walk_stmts, Node,
};
use crate::within::{
    expression_in, is_dict_head, is_plain_line, is_plain_operand, law_expressions_are_found,
    leads_inward, lemma_operands_are_entered, lemma_reaches_down, lemma_reaches_inward, reaches,
    stands_in,
};
use rustpython_ast::{Constant, Expr, ExprConstant, Mod, Stmt};
use vstd::prelude::*;
use vstd::string::*;

verus! {

// ── Numbers ─────────────────────────────────────────────────────────────────

/// Whether a literal is a number of a text that needs a name: it is none of minus one, zero
/// and one, be it written as an integer or not.
pub open spec fn is_unnamed_number(c: ExprConstant, text: Seq<char>) -> bool {
    &&& match c.value {
        Constant::Int(i) => text == integer_text(i),
        Constant::Float(_) => text == float_texts(c.value)[0],
        _ => false,
    }
    &&& text != "-1"@ && text != "0"@ && text != "1"@ && text != "-1.0"@ && text != "-0.0"@ && text
        != "0.0"@ && text != "1.0"@
}

pub open spec fn number_told(text: Seq<char>) -> Seq<char> {
    "magic number "@ + text
}

/// A number that needs a name is reported where it stands in a function other than `__init__`,
/// at any level, but for parameters and the values of keyword arguments.
pub proof fn law_magic_numbers_are_reported(
    module: Mod,
    site: SiteView,
    f: &Stmt,
    inner: &Stmt,
    line: Seq<Expr>,
    c: ExprConstant,
    text: Seq<char>,
)
    requires
        stands_in(body_of(module), *f),
        f is FunctionDef || f is AsyncFunctionDef,
        def_name(f) != "__init__"@,
        stands_in(seq![*f], *inner),
        is_plain_line(*inner, line),
        line.last() == Expr::Constant(c),
        is_unnamed_number(c, text),
    ensures
        has_one_at(
            magic_numbers(module, site),
            site,
            range_start(c.range),
            Severity::Info,
            "magic-number"@,
            number_told(text),
        ),
{
    let cov = unexplained();
    let e = line.last();
    let node = Node::Expr(&e);
    assert(walk_expr(&e, cov, outset())[0].node == node);
    lemma_reaches_down(inner, line, cov, node);
    let inward = choose|l: Seq<Stmt>| #[trigger] leads_inward(seq![*f], l) && l.last() == *inner;
    lemma_reaches_inward(seq![*f], inward, cov, node);
    let one = seq![*f];
    assert(one.drop_last() =~= Seq::<Stmt>::empty());
    assert(walk_stmts(Seq::<Stmt>::empty(), cov, outset()) =~= seq![]);
    let v = walk_stmt(f, cov, outset());
    assert(walk_stmts(one, cov, outset()) =~= v);
    let k = choose|k: int| 0 <= k < v.len() && (#[trigger] v[k]).node == node;
    let g = each_magic_number(site);
    let x = g(v[k])[0];
    assert(g(v[k]).contains(x));
    lemma_flat_map_contains(v, g, x);
    let all = functions(body_of(module));
    let h = each_magic_function(site);
    law_functions_stand_in_the_body(body_of(module), f);
    let j = all.index_of(f);
    assert(h(all[j]).contains(x));
    lemma_flat_map_contains(all, h, x);
    let r = magic_numbers(module, site);
    let i = r.index_of(x);
    let head = number_told(text);
    assert(x.message.take(head.len() as int) =~= head);
    assert(is_at(r[i], site, range_start(c.range), Severity::Info, "magic-number"@, head));
}

/// What is reported as a magic number is such a number, in a function other than `__init__`.
pub proof fn law_reported_numbers_are_unnamed(module: Mod, site: SiteView, x: IssueView) -> (r: (
    Stmt,
    ExprConstant,
    Seq<char>,
))
    requires
        magic_numbers(module, site).contains(x),
    ensures
        stands_in(body_of(module), r.0),
        r.0 is FunctionDef || r.0 is AsyncFunctionDef,
        def_name(&r.0) != "__init__"@,
        is_unnamed_number(r.1, r.2),
        is_at(
            x,
            site,
            range_start(r.1.range),
            Severity::Info,
            "magic-number"@,
            number_told(r.2),
        ),
{
    let all = functions(body_of(module));
    let h = each_magic_function(site);
    lemma_flat_map_contains(all, h, x);
    let j = choose|j: int| 0 <= j < all.len() && h(#[trigger] all[j]).contains(x);
    let f = all[j];
    assert(all.contains(f));
    law_functions_stand_in_the_body(body_of(module), f);
    let v = walk_stmt(f, unexplained(), outset());
    let g = each_magic_number(site);
    lemma_flat_map_contains(v, g, x);
    let k = choose|k: int| 0 <= k < v.len() && g(#[trigger] v[k]).contains(x);
    match v[k].node {
        Node::Expr(Expr::Constant(c)) => {
            let text = match c.value {
                Constant::Int(i) => integer_text(i),
                _ => float_texts(c.value)[0],
            };
            let head = number_told(text);
            assert(x.message.take(head.len() as int) =~= head);
            (*f, *c, text)
        },
        _ => (*f, arbitrary(), seq![]),
    }
}

// ── Strings ─────────────────────────────────────────────────────────────────

/// Whether an expression is a string literal of at least two characters.
pub open spec fn is_word(e: Expr, text: Seq<char>) -> bool {
    e matches Expr::Constant(c) && c.value matches Constant::Str(t) && t@ == text && text.len() >= 2
}

/// Whether an expression is no string literal of at least two characters, and no attribute
/// `arg`, `id` or `attr`.
pub open spec fn is_compared(e: Expr) -> bool {
    &&& !(e matches Expr::Constant(c) && c.value matches Constant::Str(t) && t@.len() >= 2)
    &&& !(e matches Expr::Attribute(a) && (identifier_text(a.attr) == "arg"@ || identifier_text(
        a.attr,
    ) == "id"@ || identifier_text(a.attr) == "attr"@))
}

/// Whether an expression compares something with a string, for equality or inequality; special
/// names do not count.
pub open spec fn compares_with(e: Expr, text: Seq<char>) -> bool {
    &&& !(text.len() > 4 && "__"@.is_prefix_of(text) && "__"@.is_suffix_of(text))
    &&& e matches Expr::Compare(n) && n.ops@.len() == 1 && (n.ops@[0] is Eq || n.ops@[0] is NotEq)
        && n.comparators@.len() > 0 && ((is_word(*n.left, text) && is_compared(n.comparators@[0]))
        || (is_word(n.comparators@[0], text) && is_compared(*n.left)))
}

/// Where a comparison begins.
pub open spec fn compare_start(e: Expr) -> u32 {
    match e {
        Expr::Compare(n) => range_start(n.range),
        _ => 0,
    }
}

proof fn lemma_compared(e: Expr, text: Seq<char>)
    ensures
        e matches Expr::Compare(n) ==> (compared_string(&n) == Some(text) <==> compares_with(
            e,
            text,
        )),
{
}

proof fn lemma_two_occurrences(s: Seq<(Seq<char>, u32)>, i: int, j: int)
    requires
        0 <= i < j < s.len(),
        s[i].0 == s[j].0,
    ensures
        occurrences(s, s[i].0) >= 2,
    decreases s.len(),
{
    let rest = s.drop_last();
    if j < rest.len() {
        assert(rest[i] == s[i] && rest[j] == s[j]);
        lemma_two_occurrences(rest, i, j);
    } else {
        assert(rest[i] == s[i]);
        lemma_occurs(rest, i);
    }
}

proof fn lemma_occurs(s: Seq<(Seq<char>, u32)>, i: int)
    requires
        0 <= i < s.len(),
    ensures
        occurrences(s, s[i].0) >= 1,
    decreases s.len(),
{
    if i < s.len() - 1 {
        assert(s.drop_last()[i] == s[i]);
        lemma_occurs(s.drop_last(), i);
    }
}

proof fn lemma_comparison_found(module: Mod, e: &Expr, text: Seq<char>)
    requires
        expression_in(body_of(module), *e),
        compares_with(*e, text),
    ensures
        string_comparisons(module).contains((text, compare_start(*e))),
{
    let v = walk_stmts(body_of(module), expressions(), outset());
    law_expressions_are_found(body_of(module), e);
    let k = choose|k: int| 0 <= k < v.len() && (#[trigger] v[k]).node == Node::Expr(e);
    let b = (text, compare_start(*e));
    lemma_compared(*e, text);
    assert(each_string_comparison()(v[k])[0] == b);
    assert(each_string_comparison()(v[k]).contains(b));
    lemma_flat_map_contains(v, each_string_comparison(), b);
}

pub open spec fn string_told(text: Seq<char>) -> Seq<char> {
    "magic string '"@ + text
}

/// Where two comparisons at different places of a file compare something with the same string,
/// both are reported.
pub proof fn law_magic_strings_are_reported(
    module: Mod,
    site: SiteView,
    e: &Expr,
    other: &Expr,
    text: Seq<char>,
)
    requires
        expression_in(body_of(module), *e),
        expression_in(body_of(module), *other),
        compares_with(*e, text),
        compares_with(*other, text),
        compare_start(*e) != compare_start(*other),
    ensures
        has_one_at(
            magic_strings(module, site),
            site,
            compare_start(*e),
            Severity::Info,
            "magic-string"@,
            string_told(text),
        ),
{
    let all = string_comparisons(module);
    lemma_comparison_found(module, e, text);
    lemma_comparison_found(module, other, text);
    let a = (text, compare_start(*e));
    let b = (text, compare_start(*other));
    let i = all.index_of(a);
    let j = all.index_of(b);
    if i < j {
        lemma_two_occurrences(all, i, j);
    } else {
        lemma_two_occurrences(all, j, i);
    }
    let g = each_magic_string(site, all);
    let x = g(a)[0];
    assert(g(all[i]).contains(x));
    lemma_flat_map_contains(all, g, x);
    let r = magic_strings(module, site);
    let k = r.index_of(x);
    let head = string_told(text);
    assert(x.message.take(head.len() as int) =~= head);
    assert(is_at(r[k], site, compare_start(*e), Severity::Info, "magic-string"@, head));
}

/// What is reported as a magic string is a comparison with a string that the file compares at
/// least twice.
pub proof fn law_reported_strings_are_repeated(module: Mod, site: SiteView, x: IssueView) -> (r: (
    Expr,
    Seq<char>,
))
    requires
        magic_strings(module, site).contains(x),
    ensures
        reaches(walk_stmts(body_of(module), expressions(), outset()), Node::Expr(&r.0)),
        compares_with(r.0, r.1),
        occurrences(string_comparisons(module), r.1) >= 2,
        is_at(
            x,
            site,
            compare_start(r.0),
            Severity::Info,
            "magic-string"@,
            string_told(r.1),
        ),
{
    let all = string_comparisons(module);
    let g = each_magic_string(site, all);
    lemma_flat_map_contains(all, g, x);
    let i = choose|i: int| 0 <= i < all.len() && g(#[trigger] all[i]).contains(x);
    let b = all[i];
    let v = walk_stmts(body_of(module), expressions(), outset());
    assert(all.contains(b));
    lemma_flat_map_contains(v, each_string_comparison(), b);
    let k = choose|k: int|
        0 <= k < v.len() && each_string_comparison()(#[trigger] v[k]).contains(b);
    let head = string_told(b.0);
    assert(x.message.take(head.len() as int) =~= head);
    match v[k].node {
        Node::Expr(e) => {
            lemma_compared(*e, b.0);
            assert(reaches(v, Node::Expr(e)));
            (*e, b.0)
        },
        _ => (arbitrary(), seq![]),
    }
}

// ── Annotations ─────────────────────────────────────────────────────────────

/// Whether a line of expressions leads inward from an annotation to a `dict` that is not the
/// head of `dict[...]`.
pub open spec fn leads_to_a_bare_dict(annotation: Expr, line: Seq<Expr>) -> bool {
    &&& line.len() > 0
    &&& line[0] == annotation
    &&& forall|k: int|
        0 <= k < line.len() - 1 ==> is_plain_operand(line[k], #[trigger] line[k + 1])
            && !is_dict_head(line[k], line[k + 1])
    &&& line.last() matches Expr::Name(n) && identifier_text(n.id) == "dict"@
}

proof fn lemma_bare_dict_found(annotation: &Expr, line: Seq<Expr>, top: int)
    requires
        leads_to_a_bare_dict(*annotation, line),
        0 <= top < line.len(),
    ensures
        reaches(walk_expr(&line[top], bare(), outset()), Node::Expr(&line.last())),
    decreases line.len() - top,
{
    let node = Node::Expr(&line.last());
    if top == line.len() - 1 {
        assert(walk_expr(&line[top], bare(), outset())[0].node == node);
    } else {
        lemma_bare_dict_found(annotation, line, top + 1);
        assert(is_plain_operand(line[top], line[top + 1]));
        lemma_operands_are_entered(&line[top], &line[top + 1], bare(), outset(), node);
    }
}

proof fn lemma_bare_dicts(site: SiteView, annotation: &Expr, line: Seq<Expr>)
    requires
        leads_to_a_bare_dict(*annotation, line),
    ensures
        line.last() matches Expr::Name(n) && bare_dicts(site, annotation).contains(
            line_in(site.starts, range_start(n.range) as nat),
        ),
{
    lemma_bare_dict_found(annotation, line, 0);
    let v = walk_expr(annotation, bare(), outset());
    let e = line.last();
    let k = choose|k: int| 0 <= k < v.len() && (#[trigger] v[k]).node == Node::Expr(&e);
    if let Expr::Name(n) = e {
        let at = line_in(site.starts, range_start(n.range) as nat);
        assert(each_bare_dict(site)(v[k])[0] == at);
        assert(each_bare_dict(site)(v[k]).contains(at));
        lemma_flat_map_contains(v, each_bare_dict(site), at);
    }
}

proof fn lemma_insert_line(s: Seq<nat>, x: nat, y: nat)
    ensures
        insert_line(s, x).contains(y) <==> s.contains(y) || y == x,
    decreases s.len(),
{
    if s.len() == 0 || s.last() < x {
        let now = s.push(x);
        if s.contains(y) {
            let k = s.index_of(y);
            assert(now[k] == y);
        }
        if y == x {
            assert(now[now.len() - 1] == x);
        }
        if now.contains(y) && y != x {
            let k = now.index_of(y);
            assert(s[k] == y);
        }
    } else if s.last() == x {
        assert(s[s.len() - 1] == x);
    } else {
        let rest = s.drop_last();
        let before = insert_line(rest, x);
        lemma_insert_line(rest, x, y);
        let now = before.push(s.last());
        if s.contains(y) {
            let k = s.index_of(y);
            if k < rest.len() {
                assert(rest[k] == y);
                let j = before.index_of(y);
                assert(now[j] == y);
            } else {
                assert(now[now.len() - 1] == y);
            }
        }
        if y == x {
            let j = before.index_of(y);
            assert(now[j] == y);
        }
        if now.contains(y) {
            let k = now.index_of(y);
            if k < before.len() {
                assert(before[k] == y);
                if rest.contains(y) {
                    let j = rest.index_of(y);
                    assert(s[j] == y);
                }
            } else {
                assert(s[s.len() - 1] == y);
            }
        }
    }
}

/// Putting lines in order loses none of them and adds none.
pub proof fn law_ordered_lines_are_the_same(s: Seq<nat>, y: nat)
    ensures
        increasing(s).contains(y) <==> s.contains(y),
    decreases s.len(),
{
    if s.len() > 0 {
        let rest = s.drop_last();
        law_ordered_lines_are_the_same(rest, y);
        lemma_insert_line(increasing(rest), s.last(), y);
        if s.contains(y) {
            let k = s.index_of(y);
            if k < rest.len() {
                assert(rest[k] == y);
            }
        }
        if rest.contains(y) {
            let k = rest.index_of(y);
            assert(s[k] == y);
        }
        assert(s[s.len() - 1] == s.last());
    }
}

/// Whether an expression is the annotation of a function's result, of an assignment, or of a
/// parameter.
pub open spec fn annotates(s: Stmt, e: Expr) -> bool {
    match s {
        Stmt::FunctionDef(n) => n.returns == Some(Box::new(e)) || annotates_param(*n.args, e),
        Stmt::AsyncFunctionDef(n) => n.returns == Some(Box::new(e)) || annotates_param(*n.args, e),
        Stmt::AnnAssign(n) => *n.annotation == e,
        _ => false,
    }
}

/// Whether an expression is the annotation of a parameter.
pub open spec fn annotates_param(a: rustpython_ast::Arguments, e: Expr) -> bool {
    ||| exists|i: int|
        0 <= i < a.posonlyargs@.len() && (#[trigger] a.posonlyargs@[i]).def.annotation == Some(
            Box::new(e),
        )
    ||| exists|i: int|
        0 <= i < a.args@.len() && (#[trigger] a.args@[i]).def.annotation == Some(Box::new(e))
    ||| exists|i: int|
        0 <= i < a.kwonlyargs@.len() && (#[trigger] a.kwonlyargs@[i]).def.annotation == Some(
            Box::new(e),
        )
    ||| a.vararg matches Some(v) && v.annotation == Some(Box::new(e))
    ||| a.kwarg matches Some(k) && k.annotation == Some(Box::new(e))
}

proof fn lemma_params_lines(
    site: SiteView,
    a: rustpython_ast::Arguments,
    e: Expr,
    at: nat,
)
    requires
        annotates_param(a, e),
        bare_dicts(site, &e).contains(at),
    ensures
        bare_dicts_arguments(site, &a).contains(at),
{
    broadcast use vstd::seq_lib::lemma_seq_concat_contains_all_elements;

    let g = crate::checks::literals::bare_dicts_params(site);
    lemma_flat_map_contains(a.posonlyargs@, g, at);
    lemma_flat_map_contains(a.args@, g, at);
    lemma_flat_map_contains(a.kwonlyargs@, g, at);
    if exists|i: int|
        0 <= i < a.posonlyargs@.len() && (#[trigger] a.posonlyargs@[i]).def.annotation == Some(
            Box::new(e),
        ) {
        let i = choose|i: int|
            0 <= i < a.posonlyargs@.len() && (#[trigger] a.posonlyargs@[i]).def.annotation == Some(
                Box::new(e),
            );
        assert(g(a.posonlyargs@[i]).contains(at));
    } else if exists|i: int|
        0 <= i < a.args@.len() && (#[trigger] a.args@[i]).def.annotation == Some(Box::new(e)) {
        let i = choose|i: int|
            0 <= i < a.args@.len() && (#[trigger] a.args@[i]).def.annotation == Some(Box::new(e));
        assert(g(a.args@[i]).contains(at));
    } else if exists|i: int|
        0 <= i < a.kwonlyargs@.len() && (#[trigger] a.kwonlyargs@[i]).def.annotation == Some(
            Box::new(e),
        ) {
        let i = choose|i: int|
            0 <= i < a.kwonlyargs@.len() && (#[trigger] a.kwonlyargs@[i]).def.annotation == Some(
                Box::new(e),
            );
        assert(g(a.kwonlyargs@[i]).contains(at));
    }
}

proof fn lemma_annotation_lines(module: Mod, site: SiteView, s: &Stmt, e: Expr, at: nat)
    requires
        stands_in(body_of(module), *s),
        annotates(*s, e),
        bare_dicts(site, &e).contains(at),
    ensures
        walk_stmts(body_of(module), annotated(), outset()).flat_map(
            each_untyped_lines(site),
        ).contains(at),
{
    broadcast use crate::within::lemma_reaches_both;

    let c = annotated();
    let body = body_of(module);
    let g = each_untyped_lines(site);
    let v = walk_stmts(body, c, outset());
    let line = choose|l: Seq<Stmt>| #[trigger] leads_inward(body, l) && l.last() == *s;
    let y = inside(s, outset());
    let args = match s {
        Stmt::FunctionDef(n) => *n.args,
        Stmt::AsyncFunctionDef(n) => *n.args,
        _ => arbitrary(),
    };
    let by_param = (s is FunctionDef || s is AsyncFunctionDef) && annotates_param(args, e);
    let node = if by_param {
        Node::Arguments(&args)
    } else {
        Node::Stmt(s)
    };
    if by_param {
        assert(walk_arguments(&args, c, y)[0].node == node);
        assert(reaches(walk_arguments(&args, c, y), node));
        assert(reaches(crate::walk::stmt_parts(s, c, y), node));
        assert(reaches(walk_stmt(s, c, outset()), node));
        lemma_params_lines(site, args, e, at);
    } else {
        assert(walk_stmt(s, c, outset())[0].node == node);
    }
    lemma_reaches_inward(body, line, c, node);
    let k = choose|k: int| 0 <= k < v.len() && (#[trigger] v[k]).node == node;
    assert(g(v[k]).contains(at));
    lemma_flat_map_contains(v, g, at);
}

/// A bare `dict` in the annotation of a function's result, of a parameter or of an assignment
/// is reported on its line.
pub proof fn law_bare_dicts_are_reported(
    module: Mod,
    site: SiteView,
    s: &Stmt,
    annotation: Expr,
    line: Seq<Expr>,
)
    requires
        stands_in(body_of(module), *s),
        annotates(*s, annotation),
        leads_to_a_bare_dict(annotation, line),
    ensures
        line.last() matches Expr::Name(n) && has_one_at(
            untyped_dicts(module, site),
            site,
            range_start(n.range),
            Severity::Info,
            "untyped-dict"@,
            seq![],
        ),
{
    lemma_bare_dicts(site, &annotation, line);
    if let Expr::Name(n) = line.last() {
        let at = line_in(site.starts, range_start(n.range) as nat);
        lemma_annotation_lines(module, site, s, annotation, at);
        let all = walk_stmts(body_of(module), annotated(), outset()).flat_map(
            each_untyped_lines(site),
        );
        law_ordered_lines_are_the_same(all, at);
        let k = increasing(all).index_of(at);
        let r = untyped_dicts(module, site);
        assert(r[k] == untyped_dict(site)(at));
        assert(Seq::<char>::empty().is_prefix_of(r[k].message)) by {
            assert(r[k].message.take(0) =~= Seq::<char>::empty());
        }
        assert(is_at(
            r[k],
            site,
            range_start(n.range),
            Severity::Info,
            "untyped-dict"@,
            seq![],
        ));
    }
}

/// Of `dict[...]` only what stands in the brackets is looked at.
pub proof fn law_typed_dicts_are_not_reported(site: SiteView, e: &Expr, at: nat)
    requires
        e matches Expr::Subscript(n) && (*n.value matches Expr::Name(d) && identifier_text(d.id)
            == "dict"@),
    ensures
        e matches Expr::Subscript(n) && (bare_dicts(site, e).contains(at) <==> bare_dicts(
            site,
            &*n.slice,
        ).contains(at)),
{
    let c = bare();
    let g = each_bare_dict(site);
    if let Expr::Subscript(n) = e {
        let y = crate::walk::below(outset());
        let v = walk_expr(e, c, outset());
        let w = walk_expr(&*n.slice, c, outset());
        crate::reach::lemma_expr_from(&*n.slice, c, y);
        assert forall|k: int| 0 <= k < w.len() implies v[k + 1].node == (#[trigger] w[k]).node by {
            assert(v[k + 1] == walk_expr(&*n.slice, c, y)[k]);
        }
        assert(v.len() == w.len() + 1);
        lemma_flat_map_contains(v, g, at);
        lemma_flat_map_contains(w, g, at);
        if bare_dicts(site, e).contains(at) {
            let k = choose|k: int| 0 <= k < v.len() && g(#[trigger] v[k]).contains(at);
            assert(k > 0);
            assert(w[k - 1].node == v[k].node);
            assert(g(w[k - 1]).contains(at));
        }
        if bare_dicts(site, &*n.slice).contains(at) {
            let k = choose|k: int| 0 <= k < w.len() && g(#[trigger] w[k]).contains(at);
            assert(v[k + 1].node == w[k].node);
            assert(g(v[k + 1]).contains(at));
        }
    }
}

} // verus!
