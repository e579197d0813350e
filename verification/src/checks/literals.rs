//! Checks of literals and of type hints.

use crate::ast_helpers::{def_name, functions, line_in, FuncNode};
use crate::checks::common::{
    body_of, on_each, module_body, none, on_functions, one, report, site_of, Site, SiteView,
};
use crate::models::{finding, issue, issue_views, push_issue, Issue, IssueView, Severity};
use crate::syntax::{
    float_digits, float_texts, identifier_text, integer_digits, integer_text, name_of, range_start,
    start_of,
};
use crate::text::{count_text, dec, ends_with, same, starts_with, texts};
use crate::walk::{
    expressions, is_dict_name, outset, seen, visits, visits_of, visits_of_expr, walk_expr, walk_stmt,
    walk_stmts, Coverage, KeywordValues, Node, Seen, Visit,
};
use rustpython_ast::{
    Arg, ArgWithDefault, Arguments, CmpOp, Constant, Expr, ExprCompare, Mod, Stmt,
};
use vstd::prelude::*;
use vstd::string::*;

verus! {

// ── Magic numbers ───────────────────────────────────────────────────────────

/// What can hold a magic number: everything but parameters, whose names explain
/// their defaults, and literals passed by keyword, which the keyword explains.
#[verifier::allow_in_spec]
pub fn unexplained() -> Coverage
    returns
        (Coverage {
            arguments: false,
            comprehensions: true,
            keywords: KeywordValues::Computed,
            with_items: true,
            functions: true,
            classes: true,
            lambdas: true,
            type_checking: true,
            dict_heads: true,
        }),
{
    Coverage {
        arguments: false,
        comprehensions: true,
        keywords: KeywordValues::Computed,
        with_items: true,
        functions: true,
        classes: true,
        lambdas: true,
        type_checking: true,
        dict_heads: true,
    }
}

/// A number as text.
pub open spec fn number_text(c: Constant) -> Option<Seq<char>> {
    match c {
        Constant::Int(i) => Some(integer_text(i)),
        Constant::Float(_) => Some(float_texts(c)[0]),
        _ => None,
    }
}

/// Whether a number is minus one, zero or one, which need no name.
pub open spec fn is_plain_number(text: Seq<char>) -> bool {
    ||| text == "-1"@
    ||| text == "0"@
    ||| text == "1"@
    ||| text == "-1.0"@
    ||| text == "-0.0"@
    ||| text == "0.0"@
    ||| text == "1.0"@
}

/// A number without a name.
pub open spec fn magic_number(site: SiteView, v: Seen) -> Seq<IssueView> {
    match v.node {
        Node::Expr(Expr::Constant(n)) => match number_text(n.value) {
            Some(text) => if is_plain_number(text) {
                seq![]
            } else {
                seq![
                    report(
                        site,
                        range_start(n.range),
                        Severity::Info,
                        "magic-number"@,
                        "magic number "@ + text
                            + " — extract to a named constant, or an enum.IntEnum if it's one of a fixed set of status/category codes"@,
                    ),
                ]
            },
            None => seq![],
        },
        _ => seq![],
    }
}

/// `magic_number`, as a relation.
pub open spec fn each_magic_number<'a>(site: SiteView) -> spec_fn(Seen<'a>) -> Seq<IssueView> {
    |v: Seen<'a>| magic_number(site, v)
}

/// The numbers without a name in a function, those of nested functions among them;
/// `__init__` may hold such numbers.
pub open spec fn magic_function(site: SiteView, s: &Stmt) -> Seq<IssueView> {
    if def_name(s) == "__init__"@ {
        seq![]
    } else {
        walk_stmt(s, unexplained(), outset()).flat_map(each_magic_number(site))
    }
}

/// Whether a number needs no name.
pub fn needs_no_name(text: &str) -> (r: bool)
    ensures
        r == is_plain_number(text@),
{
    same(text, "-1") || same(text, "0") || same(text, "1") || same(text, "-1.0") || same(
        text,
        "-0.0",
    ) || same(text, "0.0") || same(text, "1.0")
}

/// Whether a number needs no name, and the number as text.
pub fn format_number_for_magic_check(c: &Constant) -> (r: Option<(bool, String)>)
    ensures
        match r {
            Some(t) => number_text(*c) == Some(t.1@) && t.0 == is_plain_number(t.1@),
            None => number_text(*c) is None,
        },
{
    let text: String = match c {
        Constant::Int(i) => integer_digits(i),
        Constant::Float(_) => {
            let numbers = float_digits(c);
            assert(texts(numbers@)[0] == numbers@[0]@);
            numbers[0].clone()
        },
        _ => {
            return None;
        },
    };
    let allowed: bool = needs_no_name(text.as_str());
    Some((allowed, text))
}

fn magic_number_issues(site: &Site, v: &Visit) -> (r: Vec<Issue>)
    ensures
        issue_views(r@) == magic_number(site@, v@),
{
    if let Node::Expr(e) = v.node {
        if let Expr::Constant(n) = e {
            if let Some((allowed, text)) = format_number_for_magic_check(&n.value) {
                if !allowed {
                    let message = "magic number ".to_owned().concat(text.as_str()).concat(
                        " — extract to a named constant, or an enum.IntEnum if it's one of a fixed set of status/category codes",
                    );
                    return one(
                        site.report(start_of(&n.range), Severity::Info, "magic-number", message),
                    );
                }
            }
        }
    }
    none()
}

fn magic_function_issues(site: &Site, func: &FuncNode) -> (r: Vec<Issue>)
    requires
        func.well_formed(),
    ensures
        issue_views(r@) == magic_function(site@, func.stmt),
{
    if same(func.name.as_str(), "__init__") {
        return none();
    }
    let check = |v: &Visit| -> (r: Vec<Issue>)
        ensures
            issue_views(r@) == magic_number(site@, v@),
        { magic_number_issues(site, v) };
    on_each(&visits_of(func.stmt, unexplained()), check, Ghost(each_magic_number(site@)))
}

/// `magic_function` for one function, as a relation.
pub open spec fn each_magic_function<'a>(site: SiteView) -> spec_fn(&'a Stmt) -> Seq<IssueView> {
    |s: &'a Stmt| magic_function(site, s)
}

/// The numbers without a name in the functions of a file.
pub open spec fn magic_numbers(module: Mod, site: SiteView) -> Seq<IssueView> {
    functions(body_of(module)).flat_map(each_magic_function(site))
}

/// The numbers without a name in the functions of a file.
pub fn check_magic_numbers(module: &Mod, source: &str, filepath: &str, package: &str) -> (r: Vec<Issue>)
    ensures
        issue_views(r@) == magic_numbers(*module, site_of(source@, filepath@, package@)),
{
    let site = Site::new(source, filepath, package);
    let check = |func: &FuncNode| -> (r: Vec<Issue>)
        requires
            func.well_formed(),
        ensures
            issue_views(r@) == magic_function(site@, func.stmt),
        { magic_function_issues(&site, func) };
    on_functions(module, check, Ghost(each_magic_function(site@)))
}

// ── Magic strings ───────────────────────────────────────────────────────────

/// In how many places a string is compared at least to look like a category.
pub const MIN_MAGIC_STRING_OCCURRENCES: usize = 2;

/// How many characters a string has at least to look like a category.
pub const MIN_MAGIC_STRING_LENGTH: usize = 2;

/// The length that a special name exceeds.
pub const MIN_DUNDER_NAME_LENGTH: usize = 4;

/// The text of a string literal that is not just a single character.
pub open spec fn operand_text(e: &Expr) -> Option<Seq<char>> {
    match e {
        Expr::Constant(c) => match c.value {
            Constant::Str(s) => if s@.len() >= MIN_MAGIC_STRING_LENGTH {
                Some(s@)
            } else {
                None
            },
            _ => None,
        },
        _ => None,
    }
}

/// Whether an expression reads a field in which Python's own syntax trees keep a
/// name.
pub open spec fn reads_identifier(e: &Expr) -> bool {
    e matches Expr::Attribute(a) && (identifier_text(a.attr) == "arg"@ || identifier_text(a.attr)
        == "id"@ || identifier_text(a.attr) == "attr"@)
}

/// Whether a text is one of Python's special names.
pub open spec fn special_name(value: Seq<char>) -> bool {
    value.len() > MIN_DUNDER_NAME_LENGTH && "__"@.is_prefix_of(value) && "__"@.is_suffix_of(value)
}

/// Whether a comparison of `value` with `other` says nothing about categories.
pub open spec fn is_excluded(value: Seq<char>, other: &Expr) -> bool {
    special_name(value) || reads_identifier(other)
}

/// The string that a comparison for equality compares something else with.
pub open spec fn compared_string(n: &ExprCompare) -> Option<Seq<char>> {
    if n.ops@.len() != 1 || !(n.ops@[0] is Eq || n.ops@[0] is NotEq) || n.comparators@.len() == 0 {
        None
    } else {
        let right = n.comparators@[0];
        match (operand_text(&*n.left), operand_text(&right)) {
            (Some(v), None) => if is_excluded(v, &right) {
                None
            } else {
                Some(v)
            },
            (None, Some(v)) => if is_excluded(v, &*n.left) {
                None
            } else {
                Some(v)
            },
            _ => None,
        }
    }
}

/// The string that a visited comparison compares something else with, and where.
pub open spec fn string_comparison(v: Seen) -> Seq<(Seq<char>, u32)> {
    match v.node {
        Node::Expr(Expr::Compare(n)) => match compared_string(n) {
            Some(t) => seq![(t, range_start(n.range))],
            None => seq![],
        },
        _ => seq![],
    }
}

/// `string_comparison`, as a relation.
pub open spec fn each_string_comparison<'a>() -> spec_fn(Seen<'a>) -> Seq<(Seq<char>, u32)> {
    |v: Seen<'a>| string_comparison(v)
}

/// The string comparisons of a module.
pub open spec fn string_comparisons(module: Mod) -> Seq<(Seq<char>, u32)> {
    walk_stmts(body_of(module), expressions(), outset()).flat_map(each_string_comparison())
}

/// How often a string is compared.
pub open spec fn occurrences(s: Seq<(Seq<char>, u32)>, value: Seq<char>) -> nat
    decreases s.len(),
{
    if s.len() == 0 {
        0
    } else {
        occurrences(s.drop_last(), value) + if s.last().0 == value {
            1nat
        } else {
            0nat
        }
    }
}

/// A comparison with a string that is compared elsewhere too.
pub open spec fn magic_string(
    site: SiteView,
    all: Seq<(Seq<char>, u32)>,
    x: (Seq<char>, u32),
) -> Seq<IssueView> {
    let count = occurrences(all, x.0);
    if count >= MIN_MAGIC_STRING_OCCURRENCES {
        seq![
            report(
                site,
                x.1,
                Severity::Info,
                "magic-string"@,
                "magic string '"@ + x.0 + "' compared "@ + dec(count)
                    + " times — consider a Value Object that canonicalizes it once (e.g. a Pydantic model with a @field_validator) instead of repeated string comparisons"@,
            ),
        ]
    } else {
        seq![]
    }
}

/// `magic_string`, as a relation.
pub open spec fn each_magic_string(site: SiteView, all: Seq<(Seq<char>, u32)>) -> spec_fn(
    (Seq<char>, u32),
) -> Seq<IssueView> {
    |x: (Seq<char>, u32)| magic_string(site, all, x)
}

/// The comparisons of a file with strings that are compared in several places.
pub open spec fn magic_strings(module: Mod, site: SiteView) -> Seq<IssueView> {
    let all = string_comparisons(module);
    all.flat_map(each_magic_string(site, all))
}

fn string_operand<'a>(e: &'a Expr) -> (r: Option<&'a str>)
    ensures
        match r {
            Some(t) => operand_text(e) == Some(t@),
            None => operand_text(e) is None,
        },
{
    match e {
        Expr::Constant(c) => match &c.value {
            Constant::Str(s) => if s.as_str().unicode_len() >= MIN_MAGIC_STRING_LENGTH {
                Some(s.as_str())
            } else {
                None
            },
            _ => None,
        },
        _ => None,
    }
}

fn is_ast_identifier_field_access(e: &Expr) -> (r: bool)
    ensures
        r == reads_identifier(e),
{
    match e {
        Expr::Attribute(a) => {
            let attr = name_of(&a.attr);
            same(attr, "arg") || same(attr, "id") || same(attr, "attr")
        },
        _ => false,
    }
}

fn is_dunder_name(value: &str) -> (r: bool)
    ensures
        r == special_name(value@),
{
    value.unicode_len() > MIN_DUNDER_NAME_LENGTH && starts_with(value, "__") && ends_with(
        value,
        "__",
    )
}

fn is_excluded_magic_string_value(value: &str, other: &Expr) -> (r: bool)
    ensures
        r == is_excluded(value@, other),
{
    is_dunder_name(value) || is_ast_identifier_field_access(other)
}

fn is_equality(op: &CmpOp) -> (r: bool)
    ensures
        r == (*op is Eq || *op is NotEq),
{
    match op {
        CmpOp::Eq | CmpOp::NotEq => true,
        _ => false,
    }
}

fn magic_string_comparison<'a>(n: &'a ExprCompare) -> (r: Option<&'a str>)
    ensures
        match r {
            Some(t) => compared_string(n) == Some(t@),
            None => compared_string(n) is None,
        },
{
    if n.ops.len() != 1 || n.comparators.len() == 0 {
        return None;
    }
    if !is_equality(&n.ops[0]) {
        return None;
    }
    let right = &n.comparators[0];
    match (string_operand(&n.left), string_operand(right)) {
        (Some(v), None) => if is_excluded_magic_string_value(v, right) {
            None
        } else {
            Some(v)
        },
        (None, Some(v)) => if is_excluded_magic_string_value(v, &n.left) {
            None
        } else {
            Some(v)
        },
        _ => None,
    }
}

/// What a list of string comparisons says.
pub open spec fn place_views(v: Seq<(String, u32)>) -> Seq<(Seq<char>, u32)> {
    v.map_values(|b: (String, u32)| (b.0@, b.1))
}

fn collect_string_comparisons(module: &Mod) -> (r: Vec<(String, u32)>)
    ensures
        place_views(r@) == string_comparisons(*module),
{
    let all = visits(module_body(module), expressions());
    let ghost w = walk_stmts(body_of(*module), expressions(), outset());
    let ghost f = each_string_comparison();
    let mut out: Vec<(String, u32)> = Vec::new();
    let mut i: usize = 0;
    assert(place_views(out@) =~= w.take(0).flat_map(f));
    while i < all.len()
        invariant
            i <= all@.len(),
            w == seen(all@),
            f == each_string_comparison(),
            place_views(out@) == w.take(i as int).flat_map(f),
        decreases all@.len() - i,
    {
        let ghost before = place_views(out@);
        proof {
            w.lemma_flat_map_take_append(f, i as int);
            assert(w[i as int] == all@[i as int]@);
            assert(before + seq![] =~= before);
        }
        if let Node::Expr(e) = all[i].node {
            if let Expr::Compare(n) = e {
                if let Some(t) = magic_string_comparison(n) {
                    let pos: u32 = start_of(&n.range);
                    out.push((t.to_owned(), pos));
                    assert(place_views(out@) =~= before + seq![(t@, pos)]);
                }
            }
        }
        i += 1;
    }
    assert(w.take(i as int) =~= w);
    out
}

fn count_occurrences(v: &Vec<(String, u32)>, value: &str) -> (r: usize)
    ensures
        r == occurrences(place_views(v@), value@),
{
    let ghost all = place_views(v@);
    let mut n: usize = 0;
    let mut i: usize = 0;
    while i < v.len()
        invariant
            i <= v@.len(),
            all == place_views(v@),
            n <= i,
            n == occurrences(all.take(i as int), value@),
        decreases v@.len() - i,
    {
        assert(all.take(i + 1).drop_last() =~= all.take(i as int));
        assert(all.take(i + 1).last() == (v@[i as int].0@, v@[i as int].1));
        if same(v[i].0.as_str(), value) {
            n += 1;
        }
        i += 1;
    }
    assert(all.take(i as int) =~= all);
    n
}

/// The comparisons of a file with strings that are compared in several places.
pub fn check_magic_strings(module: &Mod, source: &str, filepath: &str, package: &str) -> (r: Vec<
    Issue,
>)
    ensures
        issue_views(r@) == magic_strings(*module, site_of(source@, filepath@, package@)),
{
    let site = Site::new(source, filepath, package);
    let found = collect_string_comparisons(module);
    let ghost all = place_views(found@);
    let ghost f = each_magic_string(site@, all);
    let mut issues = none();
    let mut i: usize = 0;
    assert(issue_views(issues@) =~= all.take(0).flat_map(f));
    while i < found.len()
        invariant
            i <= found@.len(),
            all == place_views(found@),
            f == each_magic_string(site@, all),
            issue_views(issues@) == all.take(i as int).flat_map(f),
        decreases found@.len() - i,
    {
        let ghost before = issue_views(issues@);
        proof {
            all.lemma_flat_map_take_append(f, i as int);
            assert(all[i as int] == (found@[i as int].0@, found@[i as int].1));
            assert(before + seq![] =~= before);
        }
        let value = found[i].0.as_str();
        let count: usize = count_occurrences(&found, value);
        if count >= MIN_MAGIC_STRING_OCCURRENCES {
            let message = "magic string '".to_owned().concat(value).concat("' compared ").concat(
                count_text(count).as_str(),
            ).concat(
                " times — consider a Value Object that canonicalizes it once (e.g. a Pydantic model with a @field_validator) instead of repeated string comparisons",
            );
            push_issue(
                &mut issues,
                site.report(found[i].1, Severity::Info, "magic-string", message),
            );
        }
        i += 1;
    }
    assert(all.take(i as int) =~= all);
    issues
}

// ── Untyped dictionaries ────────────────────────────────────────────────────

/// Where annotations are looked for.
#[verifier::allow_in_spec]
pub fn annotated() -> Coverage
    returns
        (Coverage {
            arguments: true,
            comprehensions: true,
            keywords: KeywordValues::Skipped,
            with_items: false,
            functions: true,
            classes: true,
            lambdas: true,
            type_checking: true,
            dict_heads: true,
        }),
{
    Coverage {
        arguments: true,
        comprehensions: true,
        keywords: KeywordValues::Skipped,
        with_items: false,
        functions: true,
        classes: true,
        lambdas: true,
        type_checking: true,
        dict_heads: true,
    }
}

/// Where a bare `dict` is looked for in an annotation: not at the head of
/// `dict[...]`.
#[verifier::allow_in_spec]
pub fn bare() -> Coverage
    returns
        (Coverage {
            arguments: true,
            comprehensions: true,
            keywords: KeywordValues::Skipped,
            with_items: false,
            functions: true,
            classes: true,
            lambdas: true,
            type_checking: true,
            dict_heads: false,
        }),
{
    Coverage {
        arguments: true,
        comprehensions: true,
        keywords: KeywordValues::Skipped,
        with_items: false,
        functions: true,
        classes: true,
        lambdas: true,
        type_checking: true,
        dict_heads: false,
    }
}

/// The line on which a visit finds a bare `dict`.
pub open spec fn bare_dict(site: SiteView, v: Seen) -> Seq<nat> {
    match v.node {
        Node::Expr(e) => match e {
            Expr::Name(n) => if is_dict_name(e) {
                seq![line_in(site.starts, range_start(n.range) as nat)]
            } else {
                seq![]
            },
            _ => seq![],
        },
        _ => seq![],
    }
}

/// `bare_dict`, as a relation.
pub open spec fn each_bare_dict<'a>(site: SiteView) -> spec_fn(Seen<'a>) -> Seq<nat> {
    |v: Seen<'a>| bare_dict(site, v)
}

/// The lines on which an annotation holds a bare `dict`.
pub open spec fn bare_dicts(site: SiteView, e: &Expr) -> Seq<nat> {
    walk_expr(e, bare(), outset()).flat_map(each_bare_dict(site))
}

/// The lines on which an annotation that may be absent holds a bare `dict`.
pub open spec fn bare_dicts_opt(site: SiteView, e: Option<Box<Expr>>) -> Seq<nat> {
    match e {
        Some(e) => bare_dicts(site, &*e),
        None => seq![],
    }
}

/// The lines on which the annotation of a parameter that may be absent holds a bare
/// `dict`.
pub open spec fn bare_dicts_arg(site: SiteView, a: Option<Box<Arg>>) -> Seq<nat> {
    match a {
        Some(a) => bare_dicts_opt(site, a.annotation),
        None => seq![],
    }
}

/// The lines on which the annotations of parameters hold a bare `dict`.
pub open spec fn bare_dicts_params(site: SiteView) -> spec_fn(ArgWithDefault) -> Seq<nat> {
    |a: ArgWithDefault| bare_dicts_opt(site, a.def.annotation)
}

/// The lines on which the annotations of a function's parameters hold a bare `dict`.
pub open spec fn bare_dicts_arguments(site: SiteView, a: &Arguments) -> Seq<nat> {
    a.posonlyargs@.flat_map(bare_dicts_params(site)) + a.args@.flat_map(bare_dicts_params(site))
        + a.kwonlyargs@.flat_map(bare_dicts_params(site)) + bare_dicts_arg(site, a.vararg)
        + bare_dicts_arg(site, a.kwarg)
}

/// The lines on which the annotations of a visited node hold a bare `dict`.
pub open spec fn untyped_lines(site: SiteView, v: Seen) -> Seq<nat> {
    match v.node {
        Node::Stmt(Stmt::FunctionDef(n)) => bare_dicts_opt(site, n.returns),
        Node::Stmt(Stmt::AsyncFunctionDef(n)) => bare_dicts_opt(site, n.returns),
        Node::Stmt(Stmt::AnnAssign(n)) => bare_dicts(site, &*n.annotation),
        Node::Arguments(a) => bare_dicts_arguments(site, a),
        _ => seq![],
    }
}

/// `untyped_lines`, as a relation.
pub open spec fn each_untyped_lines<'a>(site: SiteView) -> spec_fn(Seen<'a>) -> Seq<nat> {
    |v: Seen<'a>| untyped_lines(site, v)
}

/// An increasing list with `x` in its place, unless it is there.
pub open spec fn insert_line(s: Seq<nat>, x: nat) -> Seq<nat>
    decreases s.len(),
{
    if s.len() == 0 || s.last() < x {
        s.push(x)
    } else if s.last() == x {
        s
    } else {
        insert_line(s.drop_last(), x).push(s.last())
    }
}

/// The numbers of a list in increasing order, each once.
pub open spec fn increasing(s: Seq<nat>) -> Seq<nat>
    decreases s.len(),
{
    if s.len() == 0 {
        seq![]
    } else {
        insert_line(increasing(s.drop_last()), s.last())
    }
}

/// A bare `dict` on a line.
pub open spec fn untyped_dict(site: SiteView) -> spec_fn(nat) -> IssueView {
    |line: nat|
        finding(
            site.file,
            line,
            Severity::Info,
            "untyped-dict"@,
            site.package,
            "Bare 'dict' used in type hint — use dict[str, Any] or similar, a dataclass/Pydantic model (a DTO) if the shape is fixed, or typing.TypedDict if it must stay a plain dict at runtime"@,
        )
}

/// The lines of a file whose type hints hold a bare `dict`.
pub open spec fn untyped_dicts(module: Mod, site: SiteView) -> Seq<IssueView> {
    increasing(
        walk_stmts(body_of(module), annotated(), outset()).flat_map(each_untyped_lines(site)),
    ).map_values(untyped_dict(site))
}

/// Whether each number of a list is greater than those before it.
pub open spec fn is_increasing(s: Seq<nat>) -> bool {
    forall|i: int, j: int| 0 <= i < j < s.len() ==> #[trigger] s[i] < #[trigger] s[j]
}

/// Putting a number into an increasing list keeps it increasing and adds nothing
/// else.
pub proof fn lemma_insert_line(s: Seq<nat>, x: nat)
    requires
        is_increasing(s),
    ensures
        is_increasing(insert_line(s, x)),
        forall|y: nat| insert_line(s, x).contains(y) <==> s.contains(y) || y == x,
        insert_line(s, x).len() > 0 ==> (insert_line(s, x).last() == x || (s.len() > 0
            && insert_line(s, x).last() == s.last())),
    decreases s.len(),
{
    broadcast use vstd::seq_lib::lemma_seq_contains_after_push;

    let r = insert_line(s, x);
    if s.len() == 0 || s.last() < x {
        assert forall|i: int, j: int| 0 <= i < j < r.len() implies #[trigger] r[i] < #[trigger] r[j] by {
            if j == s.len() && i < s.len() - 1 {
                assert(s[i] < s[s.len() - 1]);
            }
        }
        assert forall|y: nat| r.contains(y) <==> s.contains(y) || y == x by {
            assert(s.push(x).contains(y) <==> s.contains(y) || y == x);
        }
    } else if s.last() == x {
        assert(s[s.len() - 1] == x);
        assert(s.contains(x));
    } else {
        let rest = s.drop_last();
        assert(is_increasing(rest)) by {
            assert forall|i: int, j: int| 0 <= i < j < rest.len() implies #[trigger] rest[i]
                < #[trigger] rest[j] by {
                assert(s[i] < s[j]);
            }
        }
        lemma_insert_line(rest, x);
        let inner = insert_line(rest, x);
        assert(s =~= rest.push(s.last()));
        assert forall|y: nat| r.contains(y) <==> s.contains(y) || y == x by {
            assert(inner.push(s.last()).contains(y) <==> inner.contains(y) || y == s.last());
            assert(rest.push(s.last()).contains(y) <==> rest.contains(y) || y == s.last());
        }
        assert forall|i: int, j: int| 0 <= i < j < r.len() implies #[trigger] r[i] < #[trigger] r[j] by {
            if j == inner.len() {
                assert(inner.contains(inner[i]));
                if rest.contains(inner[i]) {
                    let k = choose|k: int| 0 <= k < rest.len() && rest[k] == inner[i];
                    assert(s[k] < s[s.len() - 1]);
                }
            } else {
                assert(inner[i] < inner[j]);
            }
        }
    }
}

/// The lines are reported in increasing order, each once, and none is lost.
pub proof fn law_lines_increase(s: Seq<nat>)
    ensures
        is_increasing(increasing(s)),
        forall|y: nat| increasing(s).contains(y) <==> s.contains(y),
    decreases s.len(),
{
    broadcast use vstd::seq_lib::lemma_seq_contains_after_push;

    if s.len() > 0 {
        let rest = s.drop_last();
        law_lines_increase(rest);
        lemma_insert_line(increasing(rest), s.last());
        assert(s =~= rest.push(s.last()));
        assert forall|y: nat| increasing(s).contains(y) <==> s.contains(y) by {
            assert(rest.push(s.last()).contains(y) <==> rest.contains(y) || y == s.last());
        }
    }
}

spec fn as_lines(v: Seq<usize>) -> Seq<nat> {
    v.map_values(|n: usize| n as nat)
}

/// Where an increasing list takes a number that it does not hold.
proof fn lemma_insert_line_at(s: Seq<nat>, x: nat, pos: int)
    requires
        0 <= pos <= s.len(),
        pos == 0 || s[pos - 1] < x,
        forall|k: int| pos <= k < s.len() ==> #[trigger] s[k] > x,
    ensures
        insert_line(s, x) == s.insert(pos, x),
    decreases s.len(),
{
    if pos == s.len() {
        assert(s.insert(pos, x) =~= s.push(x));
    } else {
        lemma_insert_line_at(s.drop_last(), x, pos);
        assert(s.drop_last().insert(pos, x).push(s.last()) =~= s.insert(pos, x));
    }
}

proof fn lemma_insert_line_there(s: Seq<nat>, x: nat, pos: int)
    requires
        0 <= pos < s.len(),
        s[pos] == x,
        forall|k: int| pos < k < s.len() ==> #[trigger] s[k] > x,
    ensures
        insert_line(s, x) == s,
    decreases s.len(),
{
    if pos < s.len() - 1 {
        lemma_insert_line_there(s.drop_last(), x, pos);
        assert(s.drop_last().push(s.last()) =~= s);
    }
}

fn add_line(lines: &mut Vec<usize>, x: usize)
    ensures
        as_lines(final(lines)@) == insert_line(as_lines(old(lines)@), x as nat),
{
    let ghost before = as_lines(lines@);
    let mut pos: usize = lines.len();
    while pos > 0 && lines[pos - 1] > x
        invariant
            *lines == *old(lines),
            before == as_lines(lines@),
            pos <= lines@.len(),
            forall|k: int| pos <= k < before.len() ==> #[trigger] before[k] > x,
        decreases pos,
    {
        assert(before[pos - 1] == lines@[pos - 1]);
        pos -= 1;
    }
    if pos > 0 {
        assert(before[pos - 1] == lines@[pos - 1]);
        if lines[pos - 1] == x {
            proof {
                lemma_insert_line_there(before, x as nat, pos - 1);
            }
            return;
        }
    }
    proof {
        lemma_insert_line_at(before, x as nat, pos as int);
    }
    lines.insert(pos, x);
    assert(as_lines(lines@) =~= before.insert(pos as int, x as nat));
}

proof fn lemma_increasing_append(s: Seq<nat>, x: nat)
    ensures
        increasing(s + seq![x]) == insert_line(increasing(s), x),
{
    assert((s + seq![x]).drop_last() =~= s);
}

fn scan_annotation(site: &Site, e: &Expr, lines: &mut Vec<usize>, Ghost(earlier): Ghost<Seq<nat>>)
    requires
        as_lines(old(lines)@) == increasing(earlier),
    ensures
        as_lines(final(lines)@) == increasing(earlier + bare_dicts(site@, e)),
{
    let all = visits_of_expr(e, bare());
    let ghost w = walk_expr(e, bare(), outset());
    let ghost f = each_bare_dict(site@);
    let mut i: usize = 0;
    assert(earlier + w.take(0).flat_map(f) =~= earlier);
    while i < all.len()
        invariant
            i <= all@.len(),
            w == seen(all@),
            f == each_bare_dict(site@),
            as_lines(lines@) == increasing(earlier + w.take(i as int).flat_map(f)),
        decreases all@.len() - i,
    {
        let ghost so_far = earlier + w.take(i as int).flat_map(f);
        proof {
            w.lemma_flat_map_take_append(f, i as int);
            assert(w[i as int] == all@[i as int]@);
            assert(earlier + w.take(i + 1).flat_map(f) =~= so_far + f(w[i as int]));
            assert(so_far + seq![] =~= so_far);
        }
        if let Node::Expr(x) = all[i].node {
            if let Expr::Name(n) = x {
                if same(name_of(&n.id), "dict") {
                    let line: usize = site.index.line_number(start_of(&n.range));
                    proof {
                        lemma_increasing_append(so_far, line as nat);
                    }
                    add_line(lines, line);
                }
            }
        }
        i += 1;
    }
    assert(w.take(i as int) =~= w);
}

fn scan_opt_annotation(
    site: &Site,
    e: &Option<Box<Expr>>,
    lines: &mut Vec<usize>,
    Ghost(earlier): Ghost<Seq<nat>>,
)
    requires
        as_lines(old(lines)@) == increasing(earlier),
    ensures
        as_lines(final(lines)@) == increasing(earlier + bare_dicts_opt(site@, *e)),
{
    match e {
        Some(e) => scan_annotation(site, e, lines, Ghost(earlier)),
        None => {
            assert(earlier + seq![] =~= earlier);
        },
    }
}

fn scan_arg(
    site: &Site,
    a: &Option<Box<Arg>>,
    lines: &mut Vec<usize>,
    Ghost(earlier): Ghost<Seq<nat>>,
)
    requires
        as_lines(old(lines)@) == increasing(earlier),
    ensures
        as_lines(final(lines)@) == increasing(earlier + bare_dicts_arg(site@, *a)),
{
    match a {
        Some(a) => scan_opt_annotation(site, &a.annotation, lines, Ghost(earlier)),
        None => {
            assert(earlier + seq![] =~= earlier);
        },
    }
}

fn scan_params(
    site: &Site,
    params: &Vec<ArgWithDefault>,
    lines: &mut Vec<usize>,
    Ghost(earlier): Ghost<Seq<nat>>,
)
    requires
        as_lines(old(lines)@) == increasing(earlier),
    ensures
        as_lines(final(lines)@) == increasing(
            earlier + params@.flat_map(bare_dicts_params(site@)),
        ),
{
    let ghost f = bare_dicts_params(site@);
    let mut i: usize = 0;
    assert(earlier + params@.take(0).flat_map(f) =~= earlier);
    while i < params.len()
        invariant
            i <= params@.len(),
            f == bare_dicts_params(site@),
            as_lines(lines@) == increasing(earlier + params@.take(i as int).flat_map(f)),
        decreases params@.len() - i,
    {
        let ghost so_far = earlier + params@.take(i as int).flat_map(f);
        proof {
            params@.lemma_flat_map_take_append(f, i as int);
            assert(earlier + params@.take(i + 1).flat_map(f) =~= so_far + f(params@[i as int]));
        }
        scan_opt_annotation(site, &params[i].def.annotation, lines, Ghost(so_far));
        i += 1;
    }
    assert(params@.take(i as int) =~= params@);
}

fn scan_arguments(
    site: &Site,
    a: &Arguments,
    lines: &mut Vec<usize>,
    Ghost(earlier): Ghost<Seq<nat>>,
)
    requires
        as_lines(old(lines)@) == increasing(earlier),
    ensures
        as_lines(final(lines)@) == increasing(earlier + bare_dicts_arguments(site@, a)),
{
    let ghost f = bare_dicts_params(site@);
    let ghost one = earlier + a.posonlyargs@.flat_map(f);
    let ghost two = one + a.args@.flat_map(f);
    let ghost three = two + a.kwonlyargs@.flat_map(f);
    let ghost four = three + bare_dicts_arg(site@, a.vararg);
    scan_params(site, &a.posonlyargs, lines, Ghost(earlier));
    scan_params(site, &a.args, lines, Ghost(one));
    scan_params(site, &a.kwonlyargs, lines, Ghost(two));
    scan_arg(site, &a.vararg, lines, Ghost(three));
    scan_arg(site, &a.kwarg, lines, Ghost(four));
    assert(four + bare_dicts_arg(site@, a.kwarg) =~= earlier + bare_dicts_arguments(site@, a));
}

/// The lines of a file whose type hints hold a bare `dict`.
pub fn check_untyped_dicts(module: &Mod, source: &str, filepath: &str, package: &str) -> (r: Vec<
    Issue,
>)
    ensures
        issue_views(r@) == untyped_dicts(*module, site_of(source@, filepath@, package@)),
{
    let site = Site::new(source, filepath, package);
    let all = visits(module_body(module), annotated());
    let ghost w = walk_stmts(body_of(*module), annotated(), outset());
    let ghost f = each_untyped_lines(site@);
    let mut lines: Vec<usize> = Vec::new();
    let mut i: usize = 0;
    assert(w.take(0).flat_map(f) =~= seq![]);
    assert(as_lines(lines@) =~= increasing(w.take(0).flat_map(f)));
    while i < all.len()
        invariant
            i <= all@.len(),
            w == seen(all@),
            f == each_untyped_lines(site@),
            as_lines(lines@) == increasing(w.take(i as int).flat_map(f)),
        decreases all@.len() - i,
    {
        let ghost so_far = w.take(i as int).flat_map(f);
        proof {
            w.lemma_flat_map_take_append(f, i as int);
            assert(w[i as int] == all@[i as int]@);
            assert(so_far + seq![] =~= so_far);
        }
        match all[i].node {
            Node::Stmt(s) => match s {
                Stmt::FunctionDef(n) => scan_opt_annotation(
                    &site,
                    &n.returns,
                    &mut lines,
                    Ghost(so_far),
                ),
                Stmt::AsyncFunctionDef(n) => scan_opt_annotation(
                    &site,
                    &n.returns,
                    &mut lines,
                    Ghost(so_far),
                ),
                Stmt::AnnAssign(n) => scan_annotation(
                    &site,
                    &n.annotation,
                    &mut lines,
                    Ghost(so_far),
                ),
                _ => {},
            },
            Node::Arguments(a) => scan_arguments(&site, a, &mut lines, Ghost(so_far)),
            _ => {},
        }
        i += 1;
    }
    assert(w.take(i as int) =~= w);
    let ghost ordered = as_lines(lines@);
    let ghost g = untyped_dict(site@);
    let mut issues = none();
    let mut k: usize = 0;
    assert(issue_views(issues@) =~= ordered.take(0).map_values(g));
    while k < lines.len()
        invariant
            k <= lines@.len(),
            ordered == as_lines(lines@),
            g == untyped_dict(site@),
            site.file@ == site@.file,
            site.package@ == site@.package,
            issue_views(issues@) == ordered.take(k as int).map_values(g),
        decreases lines@.len() - k,
    {
        let ghost before = issue_views(issues@);
        push_issue(
            &mut issues,
            issue(
                site.file,
                lines[k],
                Severity::Info,
                "untyped-dict",
                site.package,
                "Bare 'dict' used in type hint — use dict[str, Any] or similar, a dataclass/Pydantic model (a DTO) if the shape is fixed, or typing.TypedDict if it must stay a plain dict at runtime".to_owned(),
            ),
        );
        assert(ordered[k as int] == lines@[k as int]);
        assert(ordered.take(k + 1).map_values(g) =~= ordered.take(k as int).map_values(g) + seq![
            g(ordered[k as int]),
        ]);
        k += 1;
    }
    assert(ordered.take(k as int) =~= ordered);
    issues
}

} // verus!
