//! Which imports the checks of imports report.

use crate::ast_helpers::stmt_range;
use crate::checks::branches::at_start;
use crate::checks::common::{body_of, SiteView};
use crate::checks::imports::{
    bindings, by_position, bound_text, broken_layer, display_elements, each_binding,
    each_forbidden_import, each_from_binding, each_import_binding, each_named_module, each_star,
    each_star_import, each_string, each_transport_import, each_unused_import, each_use, in_force,
    imported_names, is_all_name, layer_violations, named_modules, other_than, parent_import,
    parent_imports, star_imports, transport_imports, unused_imports, used_names,
};
use crate::checks::limits::always;
use crate::checks::reporting::{
    finds_statement, has_one_at, is_at, is_on_statements, lemma_on_statements,
};
use crate::config::layers;
use crate::models::{IssueView, Severity};
use crate::order::{lemma_flat_map_contains, lemma_sorted, sorted, total_preorder};
use crate::paths::{file_name, module_parts, strip_prefix};
use crate::syntax::{identifier_text, range_start};
use crate::text::{
    join, law_pieces_join_back, law_split_at_a_separator, law_whole_without_a_separator, split,
};
use crate::walk::{expressions, outset, statements, walk_stmts, Node, Seen};
use crate::within::{
    expression_in, law_expressions_are_found, law_found_statements_stand_in,
    law_statements_are_found, reaches, stands_in,
};
use rustpython_ast::{Constant, Expr, Mod, Stmt};
use vstd::prelude::*;
use vstd::string::*;

verus! {

// ── What imports bind ───────────────────────────────────────────────────────

proof fn lemma_first_piece(s: Seq<char>, sep: char, first: Seq<char>, rest: Seq<char>)
    requires
        !first.contains(sep),
    ensures
        split(first, sep)[0] == first,
        split(first + seq![sep] + rest, sep)[0] == first,
{
    law_whole_without_a_separator(first, sep);
    law_split_at_a_separator(first, rest, sep);
    law_pieces_join_back(rest, sep);
}

/// Whether an import statement binds a name: the one behind `as`; without `as` the name that
/// a `from` import takes over, or the name before the first dot of an imported module. `_`
/// and `*` bind nothing, and neither does `from __future__`.
pub open spec fn binds(s: Stmt, name: Seq<char>) -> bool {
    &&& name != "_"@
    &&& match s {
        Stmt::Import(n) => exists|i: int|
            0 <= i < n.names@.len() && match (#[trigger] n.names@[i]).asname {
                Some(id) => identifier_text(id) == name && !name.contains('.') || is_dotted(
                    identifier_text(id),
                    name,
                ),
                None => identifier_text(n.names@[i].name) == name && !name.contains('.')
                    || is_dotted(identifier_text(n.names@[i].name), name),
            },
        Stmt::ImportFrom(n) => !(n.module matches Some(m) && identifier_text(m) == "__future__"@)
            && exists|i: int|
            0 <= i < n.names@.len() && identifier_text((#[trigger] n.names@[i]).name) != "*"@
                && match n.names@[i].asname {
                Some(id) => identifier_text(id) == name,
                None => identifier_text(n.names@[i].name) == name,
            },
        _ => false,
    }
}

/// Whether `name` is what stands before the first dot of a dotted name.
pub open spec fn is_dotted(whole: Seq<char>, name: Seq<char>) -> bool {
    !name.contains('.') && exists|rest: Seq<char>| whole == #[trigger] (name + seq!['.'] + rest)
}

proof fn lemma_bindings(s: &Stmt, name: Seq<char>, v: Seen)
    requires
        binds(*s, name),
        v.node == Node::Stmt(s),
    ensures
        bindings(v).contains((name, range_start(stmt_range(s)))),
{
    let b = (name, range_start(stmt_range(s)));
    match s {
        Stmt::Import(n) => {
            let i = choose|i: int|
                0 <= i < n.names@.len() && match (#[trigger] n.names@[i]).asname {
                    Some(id) => identifier_text(id) == name && !name.contains('.') || is_dotted(
                    identifier_text(id),
                    name,
                ),
                    None => identifier_text(n.names@[i].name) == name && !name.contains('.')
                        || is_dotted(identifier_text(n.names@[i].name), name),
                };
            let g = each_import_binding(n);
            let a = n.names@[i];
            let whole = bound_text(&a);
            if whole == name {
                law_whole_without_a_separator(name, '.');
            } else {
                let rest = choose|rest: Seq<char>| whole == #[trigger] (name + seq!['.'] + rest);
                lemma_first_piece(whole, '.', name, rest);
            }
            assert(g(a)[0] == b);
            assert(g(n.names@[i]).contains(b));
            lemma_flat_map_contains(n.names@, g, b);
        },
        Stmt::ImportFrom(n) => {
            let i = choose|i: int|
                0 <= i < n.names@.len() && identifier_text((#[trigger] n.names@[i]).name) != "*"@
                    && match n.names@[i].asname {
                    Some(id) => identifier_text(id) == name,
                    None => identifier_text(n.names@[i].name) == name,
                };
            let g = each_from_binding(n);
            assert(g(n.names@[i])[0] == b);
            assert(g(n.names@[i]).contains(b));
            lemma_flat_map_contains(n.names@, g, b);
        },
        _ => {},
    }
}

/// Of several bindings of a name the last is in force.
pub proof fn law_last_binding_is_in_force(s: Seq<(Seq<char>, u32)>, k: int)
    requires
        0 <= k < s.len(),
        forall|i: int| k < i < s.len() ==> (#[trigger] s[i]).0 != s[k].0,
    ensures
        in_force(s).contains(s[k]),
    decreases s.len(),
{
    let rest = s.drop_last();
    let keep = other_than(s.last().0);
    let before = in_force(rest);
    let kept = before.filter(keep);
    let now = in_force(s);
    if k == s.len() - 1 {
        assert(now[now.len() - 1] == s[k]);
    } else {
        assert forall|i: int| k < i < rest.len() implies (#[trigger] rest[i]).0 != rest[k].0 by {
            assert(rest[i] == s[i]);
        }
        law_last_binding_is_in_force(rest, k);
        assert(s[s.len() - 1].0 != s[k].0);
        before.lemma_filter_contains(keep, before.index_of(s[k]));
        let j = kept.index_of(s[k]);
        assert(now[j] == s[k]);
    }
}

/// What is in force is one of the bindings.
pub proof fn law_bindings_in_force_are_given(s: Seq<(Seq<char>, u32)>, b: (Seq<char>, u32))
    requires
        in_force(s).contains(b),
    ensures
        s.contains(b),
    decreases s.len(),
{
    if s.len() > 0 {
        let rest = s.drop_last();
        let keep = other_than(s.last().0);
        let before = in_force(rest);
        let kept = before.filter(keep);
        let j = in_force(s).index_of(b);
        if j < kept.len() {
            assert(kept[j] == b);
            before.lemma_filter_pred(keep, j);
            before.lemma_filter_contains_rev(keep, b);
            law_bindings_in_force_are_given(rest, b);
            let i = rest.index_of(b);
            assert(s[i] == b);
        } else {
            assert(s[s.len() - 1] == b);
        }
    }
}

proof fn lemma_last_of(s: Seq<(Seq<char>, u32)>, name: Seq<char>, k: int) -> (j: int)
    requires
        0 <= k < s.len(),
        s[k].0 == name,
    ensures
        k <= j < s.len(),
        s[j].0 == name,
        forall|i: int| j < i < s.len() ==> (#[trigger] s[i]).0 != name,
    decreases s.len() - k,
{
    if exists|i: int| k < i < s.len() && (#[trigger] s[i]).0 == name {
        let i = choose|i: int| k < i < s.len() && (#[trigger] s[i]).0 == name;
        lemma_last_of(s, name, i)
    } else {
        k
    }
}

/// A name that an import statement of a file binds, at any level, is one of the imported
/// names.
pub proof fn law_imports_bind_names(module: Mod, s: &Stmt, name: Seq<char>) -> (at: u32)
    requires
        stands_in(body_of(module), *s),
        binds(*s, name),
    ensures
        imported_names(module).contains((name, at)),
{
    let v = walk_stmts(body_of(module), statements(), outset());
    let all = v.flat_map(each_binding());
    law_statements_are_found(body_of(module), s);
    let k = choose|k: int| 0 <= k < v.len() && (#[trigger] v[k]).node == Node::Stmt(s);
    let b = (name, range_start(stmt_range(s)));
    lemma_bindings(s, name, v[k]);
    assert(each_binding()(v[k]).contains(b));
    lemma_flat_map_contains(v, each_binding(), b);
    let i = all.index_of(b);
    let j = lemma_last_of(all, name, i);
    law_last_binding_is_in_force(all, j);
    all[j].1
}

/// The first place of a character; the length of the text where it does not occur.
proof fn lemma_first_dot(s: Seq<char>) -> (k: int)
    ensures
        0 <= k <= s.len(),
        !s.take(k).contains('.'),
        k < s.len() ==> s[k] == '.',
    decreases s.len(),
{
    if s.len() == 0 {
        0
    } else {
        let rest = s.drop_last();
        let k = lemma_first_dot(rest);
        assert(rest.take(k) =~= s.take(k));
        if k < rest.len() || s.last() == '.' {
            k
        } else {
            let whole = s.take(s.len() as int);
            if whole.contains('.') {
                let i = whole.index_of('.');
                if i < rest.len() {
                    assert(rest.take(k)[i] == '.');
                }
            }
            s.len() as int
        }
    }
}

proof fn lemma_first_piece_is_before_the_dot(whole: Seq<char>)
    ensures
        ({
            let name = split(whole, '.')[0];
            whole == name && !name.contains('.') || is_dotted(whole, name)
        }),
{
    let k = lemma_first_dot(whole);
    if k == whole.len() {
        assert(whole.take(k) =~= whole);
        law_whole_without_a_separator(whole, '.');
    } else {
        let rest = whole.skip(k + 1);
        assert(whole =~= whole.take(k) + seq!['.'] + rest);
        lemma_first_piece(whole, '.', whole.take(k), rest);
    }
}

/// A name that a file imports is bound by one of its import statements, at that statement.
pub proof fn law_imported_names_are_bound(module: Mod, b: (Seq<char>, u32)) -> (r: Stmt)
    requires
        imported_names(module).contains(b),
    ensures
        stands_in(body_of(module), r),
        binds(r, b.0),
        b.1 == range_start(stmt_range(&r)),
{
    let v = walk_stmts(body_of(module), statements(), outset());
    let all = v.flat_map(each_binding());
    law_bindings_in_force_are_given(all, b);
    lemma_flat_map_contains(v, each_binding(), b);
    let k = choose|k: int| 0 <= k < v.len() && each_binding()(#[trigger] v[k]).contains(b);
    match v[k].node {
        Node::Stmt(s) => {
            assert(reaches(v, Node::Stmt(s)));
            law_found_statements_stand_in(body_of(module), statements(), s);
            match s {
                Stmt::Import(n) => {
                    let g = each_import_binding(n);
                    lemma_flat_map_contains(n.names@, g, b);
                    let i = choose|i: int|
                        0 <= i < n.names@.len() && g(#[trigger] n.names@[i]).contains(b);
                    assert(g(n.names@[i])[0] == b);
                    lemma_first_piece_is_before_the_dot(bound_text(&n.names@[i]));
                },
                Stmt::ImportFrom(n) => {
                    let g = each_from_binding(n);
                    lemma_flat_map_contains(n.names@, g, b);
                    let i = choose|i: int|
                        0 <= i < n.names@.len() && g(#[trigger] n.names@[i]).contains(b);
                    assert(g(n.names@[i])[0] == b);
                },
                _ => {},
            }
            *s
        },
        _ => arbitrary(),
    }
}

// ── What a module uses ──────────────────────────────────────────────────────

/// Whether a statement lists a name in `__all__`.
pub open spec fn exports(s: Stmt, name: Seq<char>) -> bool {
    s matches Stmt::Assign(n) && (exists|i: int|
        0 <= i < n.targets@.len() && (#[trigger] n.targets@[i] matches Expr::Name(t)
            && identifier_text(t.id) == "__all__"@)) && (match *n.value {
        Expr::List(l) => lists_text(l.elts@, name),
        Expr::Tuple(l) => lists_text(l.elts@, name),
        _ => false,
    })
}

/// Whether one of several expressions is a string literal of a text.
pub open spec fn lists_text(s: Seq<Expr>, text: Seq<char>) -> bool {
    exists|i: int| 0 <= i < s.len() && is_text(#[trigger] s[i], text)
}

/// Whether an expression is a string literal of a text.
pub open spec fn is_text(e: Expr, text: Seq<char>) -> bool {
    e matches Expr::Constant(c) && c.value matches Constant::Str(t) && t@ == text
}

/// A module uses each name that occurs in it as an expression, at any level, and each that it
/// lists in `__all__`.
pub proof fn law_occurring_names_are_used(module: Mod, e: &Expr, s: &Stmt, name: Seq<char>)
    ensures
        expression_in(body_of(module), *e) && (e matches Expr::Name(n) && identifier_text(n.id)
            == name) ==> used_names(module).contains(name),
        stands_in(body_of(module), *s) && exports(*s, name) ==> used_names(module).contains(name),
{
    let v = walk_stmts(body_of(module), expressions(), outset());
    if expression_in(body_of(module), *e) && (e matches Expr::Name(n) && identifier_text(n.id)
        == name) {
        law_expressions_are_found(body_of(module), e);
        let k = choose|k: int| 0 <= k < v.len() && (#[trigger] v[k]).node == Node::Expr(e);
        assert(each_use()(v[k])[0] == name);
        assert(each_use()(v[k]).contains(name));
        lemma_flat_map_contains(v, each_use(), name);
    }
    if stands_in(body_of(module), *s) && exports(*s, name) {
        law_statements_are_found(body_of(module), s);
        let k = choose|k: int| 0 <= k < v.len() && (#[trigger] v[k]).node == Node::Stmt(s);
        if let Stmt::Assign(n) = s {
            let i = choose|i: int|
                0 <= i < n.targets@.len() && (#[trigger] n.targets@[i] matches Expr::Name(t)
                    && identifier_text(t.id) == "__all__"@);
            assert(is_all_name(&n.targets@[i]));
            let elts = display_elements(&*n.value);
            let j = choose|j: int| 0 <= j < elts.len() && is_text(#[trigger] elts[j], name);
            assert(each_string()(elts[j])[0] == name);
            assert(each_string()(elts[j]).contains(name));
            lemma_flat_map_contains(elts, each_string(), name);
            assert(each_use()(v[k]).contains(name));
            lemma_flat_map_contains(v, each_use(), name);
        }
    }
}

/// Whether a name occurs in a module: as an expression that a walk finds, or in `__all__`.
pub open spec fn occurs_in(module: Mod, name: Seq<char>) -> bool {
    ||| exists|e: Expr| #[trigger]
        reaches(walk_stmts(body_of(module), expressions(), outset()), Node::Expr(&e)) && (
        e matches Expr::Name(n) && identifier_text(n.id) == name)
    ||| exists|s: Stmt| #[trigger] stands_in(body_of(module), s) && exports(s, name)
}

/// A name that a module uses occurs in it.
pub proof fn law_used_names_occur(module: Mod, name: Seq<char>)
    requires
        used_names(module).contains(name),
    ensures
        occurs_in(module, name),
{
    let v = walk_stmts(body_of(module), expressions(), outset());
    lemma_flat_map_contains(v, each_use(), name);
    let k = choose|k: int| 0 <= k < v.len() && each_use()(#[trigger] v[k]).contains(name);
    match v[k].node {
        Node::Expr(e) => {
            assert(reaches(v, Node::Expr(e)));
        },
        Node::Stmt(s) => {
            assert(reaches(v, Node::Stmt(s)));
            law_found_statements_stand_in(body_of(module), expressions(), s);
            if let Stmt::Assign(n) = s {
                let i = choose|i: int|
                    0 <= i < n.targets@.len() && is_all_name(&#[trigger] n.targets@[i]);
                assert(n.targets@[i] is Name);
                let elts = display_elements(&*n.value);
                lemma_flat_map_contains(elts, each_string(), name);
                let j = choose|j: int|
                    0 <= j < elts.len() && each_string()(#[trigger] elts[j]).contains(name);
                assert(is_text(elts[j], name));
                assert(lists_text(elts, name));
                assert(exports(*s, name));
            }
        },
        _ => {},
    }
}

proof fn lemma_by_position()
    ensures
        total_preorder(by_position()),
{
}

/// What is said of an import that nothing uses.
pub open spec fn unused_told(name: Seq<char>) -> Seq<char> {
    "'"@ + name + "' imported but never used"@
}

/// Whether there is a finding on the unused import of a name.
pub open spec fn is_reported_unused(r: Seq<IssueView>, site: SiteView, name: Seq<char>) -> bool {
    exists|i: int|
        0 <= i < r.len() && (#[trigger] r[i]).rule == "unused-import"@ && r[i].severity
            == Severity::Warning && r[i].file == site.file && r[i].message == unused_told(name)
}

/// A name that an import of a file binds and that does not occur in the file is reported,
/// unless the file is an `__init__.py`.
pub proof fn law_unused_imports_are_reported(
    module: Mod,
    site: SiteView,
    s: &Stmt,
    name: Seq<char>,
)
    requires
        file_name(site.file) != Some("__init__.py"@),
        stands_in(body_of(module), *s),
        binds(*s, name),
        !occurs_in(module, name),
    ensures
        is_reported_unused(unused_imports(module, site), site, name),
{
    let at = law_imports_bind_names(module, s, name);
    if used_names(module).contains(name) {
        law_used_names_occur(module, name);
    }
    let all = imported_names(module);
    let order = sorted(all, by_position());
    lemma_by_position();
    lemma_sorted(all, by_position());
    let b = (name, at);
    assert(all.to_multiset().count(b) > 0) by {
        all.to_multiset_ensures();
    }
    assert(order.contains(b)) by {
        order.to_multiset_ensures();
    }
    let f = each_unused_import(site, used_names(module));
    let x = f(b)[0];
    let k = order.index_of(b);
    assert(f(order[k]).contains(x));
    lemma_flat_map_contains(order, f, x);
    let i = unused_imports(module, site).index_of(x);
    assert(unused_imports(module, site)[i] == x);
}

/// What is reported as unused is a name that the file imports and does not use; of an
/// `__init__.py` nothing is.
pub proof fn law_reported_imports_are_unused(module: Mod, site: SiteView, x: IssueView) -> (r: (
    Seq<char>,
    u32,
))
    requires
        unused_imports(module, site).contains(x),
    ensures
        file_name(site.file) != Some("__init__.py"@),
        imported_names(module).contains(r),
        !used_names(module).contains(r.0),
        is_at(x, site, r.1, Severity::Warning, "unused-import"@, unused_told(r.0)),
{
    let all = imported_names(module);
    let order = sorted(all, by_position());
    lemma_by_position();
    lemma_sorted(all, by_position());
    let f = each_unused_import(site, used_names(module));
    lemma_flat_map_contains(order, f, x);
    let k = choose|k: int| 0 <= k < order.len() && f(#[trigger] order[k]).contains(x);
    let b = order[k];
    assert(order.contains(b));
    assert(order.to_multiset().count(b) > 0) by {
        order.to_multiset_ensures();
    }
    assert(all.contains(b)) by {
        all.to_multiset_ensures();
    }
    b
}

// ── Star imports ────────────────────────────────────────────────────────────

/// Whether a statement imports all names of a module.
pub open spec fn imports_all(s: Stmt) -> bool {
    s matches Stmt::ImportFrom(n) && exists|i: int|
        0 <= i < n.names@.len() && identifier_text((#[trigger] n.names@[i]).name) == "*"@
}

/// A `from` import of `*` is reported, wherever it stands.
pub proof fn law_star_imports_are_reported(module: Mod, site: SiteView, s: &Stmt)
    requires
        stands_in(body_of(module), *s),
        imports_all(*s),
    ensures
        has_one_at(
            star_imports(module, site),
            site,
            range_start(stmt_range(s)),
            Severity::Warning,
            "star-import"@,
            "Star import from '"@,
        ),
{
    let v = walk_stmts(body_of(module), statements(), outset());
    let f = each_star_import(site);
    let r = star_imports(module, site);
    law_statements_are_found(body_of(module), s);
    let k = choose|k: int| 0 <= k < v.len() && (#[trigger] v[k]).node == Node::Stmt(s);
    if let Stmt::ImportFrom(n) = s {
        let g = each_star(site, n);
        let i = choose|i: int|
            0 <= i < n.names@.len() && identifier_text((#[trigger] n.names@[i]).name) == "*"@;
        let x = g(n.names@[i])[0];
        assert(g(n.names@[i]).contains(x));
        lemma_flat_map_contains(n.names@, g, x);
        assert(f(v[k]).contains(x));
        lemma_flat_map_contains(v, f, x);
        let j = r.index_of(x);
        let head = "Star import from '"@;
        assert(x.message.take(head.len() as int) =~= head);
        assert(is_at(
            r[j],
            site,
            range_start(stmt_range(s)),
            Severity::Warning,
            "star-import"@,
            head,
        ));
    }
}

/// What is reported as a star import is one.
pub proof fn law_reported_stars_are_stars(module: Mod, site: SiteView, x: IssueView) -> (s: Stmt)
    requires
        star_imports(module, site).contains(x),
    ensures
        stands_in(body_of(module), s),
        imports_all(s),
        x.rule == "star-import"@,
        x.severity == Severity::Warning,
        x.line == crate::ast_helpers::line_in(site.starts, range_start(stmt_range(&s)) as nat),
{
    let v = walk_stmts(body_of(module), statements(), outset());
    let f = each_star_import(site);
    lemma_flat_map_contains(v, f, x);
    let k = choose|k: int| 0 <= k < v.len() && f(#[trigger] v[k]).contains(x);
    match v[k].node {
        Node::Stmt(s) => {
            assert(reaches(v, Node::Stmt(s)));
            law_found_statements_stand_in(body_of(module), statements(), s);
            if let Stmt::ImportFrom(n) = s {
                let g = each_star(site, n);
                lemma_flat_map_contains(n.names@, g, x);
                let i = choose|i: int|
                    0 <= i < n.names@.len() && g(#[trigger] n.names@[i]).contains(x);
                assert(identifier_text(n.names@[i].name) == "*"@);
            }
            *s
        },
        _ => arbitrary(),
    }
}

// ── Transports ──────────────────────────────────────────────────────────────

/// Whether a dotted name is a top-level module or lies in it.
pub open spec fn is_in_module(name: Seq<char>, top: Seq<char>) -> bool {
    name == top || (top + "."@).is_prefix_of(name)
}

/// `from` imports of a transport.
pub open spec fn takes_from_a_transport() -> spec_fn(Stmt) -> bool {
    |s: Stmt|
        s matches Stmt::ImportFrom(n) && n.module matches Some(m) && ({
            let name = identifier_text(m);
            is_in_module(name, "fastapi"@) || is_in_module(name, "starlette"@) || is_in_module(
                name,
                "httpx"@,
            ) || is_in_module(name, "flask"@) || is_in_module(name, "django"@)
        })
}

pub open spec fn transport_told() -> spec_fn(Stmt) -> Seq<char> {
    |s: Stmt| "Library imports transport module '"@
}

proof fn lemma_top(name: Seq<char>, top: Seq<char>)
    requires
        !top.contains('.'),
    ensures
        split(name, '.')[0] == top <==> is_in_module(name, top),
{
    reveal_strlit(".");
    assert("."@ =~= seq!['.']);
    let pieces = split(name, '.');
    law_pieces_join_back(name, '.');
    if is_in_module(name, top) {
        if name == top {
            law_whole_without_a_separator(top, '.');
        } else {
            let rest = name.skip((top.len() + 1) as int);
            assert(name =~= top + seq!['.'] + rest);
            lemma_first_piece(name, '.', top, rest);
        }
    }
    if pieces[0] == top {
        lemma_join_begins(pieces, seq!['.']);
        if pieces.len() > 1 {
            assert((top + "."@).is_prefix_of(name)) by {
                assert(name.take((top + "."@).len() as int) =~= top + "."@);
            }
        }
    }
}

proof fn lemma_join_begins(parts: Seq<Seq<char>>, sep: Seq<char>)
    requires
        parts.len() > 0,
    ensures
        parts.len() == 1 ==> join(parts, sep) == parts[0],
        parts.len() > 1 ==> (parts[0] + sep).is_prefix_of(join(parts, sep)),
    decreases parts.len(),
{
    if parts.len() > 1 {
        let rest = parts.drop_last();
        lemma_join_begins(rest, sep);
        let whole = join(parts, sep);
        assert(whole == join(rest, sep) + sep + parts.last());
        assert(rest[0] == parts[0]);
        let head = parts[0] + sep;
        assert(whole.take(head.len() as int) =~= head) by {
            if rest.len() > 1 {
                assert(join(rest, sep).take(head.len() as int) =~= head);
                assert(whole.take(head.len() as int) =~= join(rest, sep).take(head.len() as int));
            }
        }
    }
}

/// In the packages that are libraries, the `from` imports of fastapi, starlette, httpx, flask
/// and django are reported, and no others; in other packages none is.
pub proof fn law_transport_imports_are_reported(module: Mod, site: SiteView)
    ensures
        site.package == "etl-core"@ || site.package == "boti"@ || site.package == "boti-data"@
            || site.package == "boti-dask"@ ==> is_on_statements(
            transport_imports(module, site),
            body_of(module),
            site,
            takes_from_a_transport(),
            at_start(),
            always(Severity::Error),
            "transport-in-library"@,
            transport_told(),
        ),
        !(site.package == "etl-core"@ || site.package == "boti"@ || site.package == "boti-data"@
            || site.package == "boti-dask"@) ==> transport_imports(module, site).len() == 0,
{
    let f = each_transport_import(site);
    let bad = takes_from_a_transport();
    reveal_strlit("fastapi");
    reveal_strlit("starlette");
    reveal_strlit("httpx");
    reveal_strlit("flask");
    reveal_strlit("django");
    assert forall|v: Seen|
        match v.node {
            Node::Stmt(s) => if bad(*s) {
                (#[trigger] f(v)).len() == 1 && is_at(
                    f(v)[0],
                    site,
                    at_start()(*s),
                    always(Severity::Error)(*s),
                    "transport-in-library"@,
                    transport_told()(*s),
                )
            } else {
                f(v).len() == 0
            },
            _ => f(v).len() == 0,
        } by {
        if let Node::Stmt(s) = v.node {
            if let Stmt::ImportFrom(n) = s {
                if let Some(m) = n.module {
                    let name = identifier_text(m);
                    lemma_top(name, "fastapi"@);
                    lemma_top(name, "starlette"@);
                    lemma_top(name, "httpx"@);
                    lemma_top(name, "flask"@);
                    lemma_top(name, "django"@);
                    if bad(*s) {
                        let head = transport_told()(*s);
                        assert(f(v).len() == 1);
                        assert(f(v)[0].message.take(head.len() as int) =~= head);
                    }
                }
            }
        }
    }
    assert(finds_statement(
        f,
        site,
        bad,
        at_start(),
        always(Severity::Error),
        "transport-in-library"@,
        transport_told(),
    ));
    lemma_on_statements(
        body_of(module),
        f,
        site,
        bad,
        at_start(),
        always(Severity::Error),
        "transport-in-library"@,
        transport_told(),
    );
}

// ── Layers ──────────────────────────────────────────────────────────────────

/// Whether an import statement names a module: the first of an `import`, or that of a `from`
/// import.
pub open spec fn leads_to(s: Stmt, name: Seq<char>) -> bool {
    match s {
        Stmt::Import(n) => n.names@.len() > 0 && identifier_text(n.names@[0].name) == name,
        Stmt::ImportFrom(n) => n.module matches Some(m) && identifier_text(m) == name,
        _ => false,
    }
}

/// Whether the layers of a package keep a file, by its path below the package, from importing
/// a module: the routes of `etl-demo` from the `boti` packages, and all of `etl-core` from
/// fastapi, starlette and httpx.
pub open spec fn is_kept_apart(package: Seq<char>, rel: Seq<char>, name: Seq<char>) -> bool {
    ||| package == "etl-demo"@ && "routes/"@.is_prefix_of(rel) && ("boti_data."@.is_prefix_of(name)
        || "boti."@.is_prefix_of(name) || "boti_dask."@.is_prefix_of(name))
    ||| package == "etl-core"@ && ("fastapi"@.is_prefix_of(name) || "starlette"@.is_prefix_of(name)
        || "httpx"@.is_prefix_of(name))
}

pub open spec fn layer_told(rel: Seq<char>, name: Seq<char>) -> Seq<char> {
    "Module '"@ + rel + "' imports '"@ + name
}

proof fn lemma_forbidden(package: Seq<char>, rel: Seq<char>, name: Seq<char>)
    ensures
        is_kept_apart(package, rel, name) <==> exists|i: int|
            0 <= i < layers(package).len() && (#[trigger] layers(package)[i]).0.is_prefix_of(rel)
                && crate::checks::imports::begins_with_any(name, layers(package)[i].1),
{
    reveal_strlit("etl-demo");
    reveal_strlit("etl-core");
    reveal_strlit("");
    assert("etl-demo"@[4] != "etl-core"@[4]);
    assert(""@.is_prefix_of(rel)) by {
        assert(rel.take(0) =~= ""@);
    }
    let rules = layers(package);
    if is_kept_apart(package, rel, name) {
        let forbidden = rules[0].1;
        assert(rules[0].0.is_prefix_of(rel));
        assert(crate::checks::imports::begins_with_any(name, forbidden)) by {
            if package == "etl-demo"@ {
                assert(forbidden[0] == "boti_data."@ && forbidden[1] == "boti."@ && forbidden[2]
                    == "boti_dask."@);
            } else {
                assert(forbidden[0] == "fastapi"@ && forbidden[1] == "starlette"@ && forbidden[2]
                    == "httpx"@);
            }
        }
    }
}

/// An import that the layers of a package forbid to a file is reported as an error, wherever
/// it stands in the file.
pub proof fn law_broken_layers_are_reported(
    module: Mod,
    site: SiteView,
    pkg_root: Seq<char>,
    rel: Seq<char>,
    s: &Stmt,
    name: Seq<char>,
)
    requires
        strip_prefix(site.file, pkg_root) == Some(rel),
        stands_in(body_of(module), *s),
        leads_to(*s, name),
        is_kept_apart(site.package, rel, name),
    ensures
        has_one_at(
            layer_violations(module, site, pkg_root),
            site,
            range_start(stmt_range(s)),
            Severity::Error,
            "layer-violation"@,
            layer_told(rel, name),
        ),
{
    let v = walk_stmts(body_of(module), statements(), outset());
    law_statements_are_found(body_of(module), s);
    let k = choose|k: int| 0 <= k < v.len() && (#[trigger] v[k]).node == Node::Stmt(s);
    let b = (name, range_start(stmt_range(s)));
    let imports = named_modules(module);
    assert(each_named_module()(v[k])[0] == b);
    assert(each_named_module()(v[k]).contains(b));
    lemma_flat_map_contains(v, each_named_module(), b);
    lemma_forbidden(site.package, rel, name);
    let rules = layers(site.package);
    let i = choose|i: int|
        0 <= i < rules.len() && (#[trigger] rules[i]).0.is_prefix_of(rel)
            && crate::checks::imports::begins_with_any(name, rules[i].1);
    let g = each_forbidden_import(site, rel, rules[i].1);
    let x = g(b)[0];
    let m = imports.index_of(b);
    assert(g(imports[m]).contains(x));
    lemma_flat_map_contains(imports, g, x);
    let f = broken_layer(site, rel, imports);
    assert(f(rules[i]).contains(x));
    lemma_flat_map_contains(rules, f, x);
    let r = layer_violations(module, site, pkg_root);
    let j = r.index_of(x);
    let head = layer_told(rel, name);
    assert(x.message.take(head.len() as int) =~= head);
    assert(is_at(
        r[j],
        site,
        range_start(stmt_range(s)),
        Severity::Error,
        "layer-violation"@,
        head,
    ));
}

/// What is reported as a broken layer is such an import.
pub proof fn law_reported_layers_are_broken(
    module: Mod,
    site: SiteView,
    pkg_root: Seq<char>,
    x: IssueView,
) -> (r: (Stmt, Seq<char>))
    requires
        layer_violations(module, site, pkg_root).contains(x),
    ensures
        strip_prefix(site.file, pkg_root) matches Some(rel) && is_kept_apart(
            site.package,
            rel,
            r.1,
        ) && is_at(
            x,
            site,
            range_start(stmt_range(&r.0)),
            Severity::Error,
            "layer-violation"@,
            layer_told(rel, r.1),
        ),
        stands_in(body_of(module), r.0),
        leads_to(r.0, r.1),
{
    let rel = strip_prefix(site.file, pkg_root)->0;
    let rules = layers(site.package);
    let imports = named_modules(module);
    let f = broken_layer(site, rel, imports);
    lemma_flat_map_contains(rules, f, x);
    let i = choose|i: int| 0 <= i < rules.len() && f(#[trigger] rules[i]).contains(x);
    let g = each_forbidden_import(site, rel, rules[i].1);
    lemma_flat_map_contains(imports, g, x);
    let m = choose|m: int| 0 <= m < imports.len() && g(#[trigger] imports[m]).contains(x);
    let b = imports[m];
    lemma_forbidden(site.package, rel, b.0);
    let v = walk_stmts(body_of(module), statements(), outset());
    assert(imports.contains(b));
    lemma_flat_map_contains(v, each_named_module(), b);
    let k = choose|k: int| 0 <= k < v.len() && each_named_module()(#[trigger] v[k]).contains(b);
    let head = layer_told(rel, b.0);
    assert(x.message.take(head.len() as int) =~= head);
    match v[k].node {
        Node::Stmt(s) => {
            assert(reaches(v, Node::Stmt(s)));
            law_found_statements_stand_in(body_of(module), statements(), s);
            (*s, b.0)
        },
        _ => (arbitrary(), b.0),
    }
}

// ── Packages around a module ────────────────────────────────────────────────

proof fn lemma_split_join(parts: Seq<Seq<char>>)
    requires
        parts.len() > 0,
        forall|i: int| 0 <= i < parts.len() ==> !(#[trigger] parts[i]).contains('.'),
    ensures
        split(join(parts, "."@), '.') == parts,
    decreases parts.len(),
{
    reveal_strlit(".");
    assert("."@ =~= seq!['.']);
    if parts.len() == 1 {
        law_whole_without_a_separator(parts[0], '.');
        assert(seq![parts[0]] =~= parts);
    } else {
        let rest = parts.drop_last();
        assert forall|i: int| 0 <= i < rest.len() implies !(#[trigger] rest[i]).contains('.') by {
            assert(rest[i] == parts[i]);
        }
        lemma_split_join(rest);
        assert(!parts[parts.len() - 1].contains('.'));
        law_split_at_a_separator(join(rest, "."@), parts.last(), '.');
        law_whole_without_a_separator(parts.last(), '.');
        assert(rest + seq![parts.last()] =~= parts);
    }
}

/// A top-level `from` import of a package around the module, as far out as the directory of the
/// scanned package, is reported. `parts` are the names of the directories and of the module.
pub proof fn law_parent_imports_are_reported(
    module: Mod,
    site: SiteView,
    pkg_root: Seq<char>,
    parts: Seq<Seq<char>>,
    k: int,
    n: int,
)
    requires
        module_parts(pkg_root, site.file) == Some(parts),
        forall|i: int| 0 <= i < parts.len() ==> !(#[trigger] parts[i]).contains('.'),
        0 <= k < body_of(module).len(),
        0 < n < parts.len(),
        body_of(module)[k] matches Stmt::ImportFrom(s) && s.module matches Some(m)
            && identifier_text(m) == join(parts.take(n), "."@),
    ensures
        has_one_at(
            parent_imports(module, site, pkg_root),
            site,
            range_start(stmt_range(&body_of(module)[k])),
            Severity::Warning,
            "potential-circular-import"@,
            "Child module imports parent '"@ + join(parts.take(n), "."@),
        ),
{
    let body = body_of(module);
    let f = parent_import(site, parts);
    let r = parent_imports(module, site, pkg_root);
    let around = parts.take(n);
    assert forall|i: int| 0 <= i < around.len() implies !(#[trigger] around[i]).contains('.') by {
        assert(around[i] == parts[i]);
    }
    lemma_split_join(around);
    assert(around.is_prefix_of(parts));
    let x = f(body[k])[0];
    assert(f(body[k]).contains(x));
    lemma_flat_map_contains(body, f, x);
    let j = r.index_of(x);
    let head = "Child module imports parent '"@ + join(around, "."@);
    assert(x.message.take(head.len() as int) =~= head);
    assert(is_at(
        r[j],
        site,
        range_start(stmt_range(&body[k])),
        Severity::Warning,
        "potential-circular-import"@,
        head,
    ));
}

/// What is reported as an import of a package around is a top-level `from` import of a dotted
/// name that the names of the directories around the module begin with.
pub proof fn law_reported_parents_are_around(
    module: Mod,
    site: SiteView,
    pkg_root: Seq<char>,
    x: IssueView,
) -> (k: int)
    requires
        parent_imports(module, site, pkg_root).contains(x),
    ensures
        0 <= k < body_of(module).len(),
        module_parts(pkg_root, site.file) matches Some(parts) && (body_of(module)[k] matches
            Stmt::ImportFrom(s) && s.module matches Some(m) && exists|n: int|
            0 < n < parts.len() && identifier_text(m) == join(#[trigger] parts.take(n), "."@)),
        x.rule == "potential-circular-import"@,
        x.severity == Severity::Warning,
{
    reveal_strlit(".");
    assert("."@ =~= seq!['.']);
    let parts = module_parts(pkg_root, site.file)->0;
    let body = body_of(module);
    let f = parent_import(site, parts);
    lemma_flat_map_contains(body, f, x);
    let k = choose|k: int| 0 <= k < body.len() && f(#[trigger] body[k]).contains(x);
    if let Stmt::ImportFrom(s) = body[k] {
        if let Some(m) = s.module {
            let pieces = split(identifier_text(m), '.');
            law_pieces_join_back(identifier_text(m), '.');
            assert(parts.take(pieces.len() as int) =~= pieces);
        }
    }
    k
}

} // verus!
