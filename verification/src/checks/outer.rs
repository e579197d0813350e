//! Which names, modules, functions and chains the checks of shared state and of couplings
//! report.

use crate::ast_helpers::{def_body, def_name, functions, line_in};
use crate::checks::common::{body_of, SiteView};
use crate::checks::reporting::{has_one_at, is_at};
use crate::checks::scope::{
    assigned_of, bound_at, chain_length, declared_by, each_mutable_global, each_outer_mutation,
    each_text, first_outer, globals_of, god_module, is_long, link_of, links_in, long_chain,
    long_chains, mutable_globals, mutable_globals_of, nearest_long, nonlocals_of, outer_mutations,
    own_scope, public_classes, public_functions, scope_of, LinkView, ScopeView,
};
use crate::definitions::law_functions_stand_in_the_body;
use crate::models::{IssueView, Severity};
use crate::order::lemma_flat_map_contains;
use crate::syntax::{identifier_text, range_start};
use crate::text::join;
use crate::walk::{expressions, outset, stops_at_stmt, walk_stmt, walk_stmts, Node};
use crate::within::{
    expression_in, law_expressions_are_found, leads_inward, lemma_reaches_inward, reaches,
    stands_in,
};
use rustpython_ast::{Expr, Mod, Stmt};
use vstd::prelude::*;
use vstd::string::*;

verus! {

// ── Mutable globals ─────────────────────────────────────────────────────────

/// Whether a top-level statement binds a public name to a list, dictionary or set display.
pub open spec fn binds_a_display(s: Stmt, name: Seq<char>) -> bool {
    s matches Stmt::Assign(n) && (*n.value is List || *n.value is Dict || *n.value is Set) && (
    exists|i: int|
        0 <= i < n.targets@.len() && (#[trigger] n.targets@[i] matches Expr::Name(t)
            && identifier_text(t.id) == name)) && !"_"@.is_prefix_of(name)
}

/// Where an assignment begins.
pub open spec fn assign_start(s: Stmt) -> u32 {
    match s {
        Stmt::Assign(n) => range_start(n.range),
        _ => 0,
    }
}

pub open spec fn global_told(name: Seq<char>) -> Seq<char> {
    "Module-level mutable '"@ + name
}

/// A public name that a top-level statement of a file binds to a list, dictionary or set
/// display is reported.
pub proof fn law_mutable_globals_are_reported(module: Mod, site: SiteView, k: int, name: Seq<char>)
    requires
        0 <= k < body_of(module).len(),
        binds_a_display(body_of(module)[k], name),
    ensures
        has_one_at(
            mutable_globals(module, site),
            site,
            assign_start(body_of(module)[k]),
            Severity::Info,
            "global-mutable"@,
            global_told(name),
        ),
{
    let body = body_of(module);
    let f = mutable_globals_of(site);
    let r = mutable_globals(module, site);
    if let Stmt::Assign(n) = body[k] {
        let g = each_mutable_global(site, &n);
        let i = choose|i: int|
            0 <= i < n.targets@.len() && (#[trigger] n.targets@[i] matches Expr::Name(t)
                && identifier_text(t.id) == name);
        let x = g(n.targets@[i])[0];
        assert(g(n.targets@[i]).contains(x));
        lemma_flat_map_contains(n.targets@, g, x);
        assert(f(body[k]).contains(x));
        lemma_flat_map_contains(body, f, x);
        let j = r.index_of(x);
        let head = global_told(name);
        assert(x.message.take(head.len() as int) =~= head);
        assert(is_at(
            r[j],
            site,
            assign_start(body[k]),
            Severity::Info,
            "global-mutable"@,
            head,
        ));
    }
}

/// What is reported as a mutable global is such a name.
pub proof fn law_reported_globals_are_displays(module: Mod, site: SiteView, x: IssueView) -> (r: (
    int,
    Seq<char>,
))
    requires
        mutable_globals(module, site).contains(x),
    ensures
        0 <= r.0 < body_of(module).len(),
        binds_a_display(body_of(module)[r.0], r.1),
        is_at(
            x,
            site,
            assign_start(body_of(module)[r.0]),
            Severity::Info,
            "global-mutable"@,
            global_told(r.1),
        ),
{
    let body = body_of(module);
    let f = mutable_globals_of(site);
    lemma_flat_map_contains(body, f, x);
    let k = choose|k: int| 0 <= k < body.len() && f(#[trigger] body[k]).contains(x);
    match body[k] {
        Stmt::Assign(n) => {
            let g = each_mutable_global(site, &n);
            lemma_flat_map_contains(n.targets@, g, x);
            let i = choose|i: int|
                0 <= i < n.targets@.len() && g(#[trigger] n.targets@[i]).contains(x);
            match n.targets@[i] {
                Expr::Name(t) => {
                    let name = identifier_text(t.id);
                    let head = global_told(name);
                    assert(x.message.take(head.len() as int) =~= head);
                    (k, name)
                },
                _ => (k, seq![]),
            }
        },
        _ => (k, seq![]),
    }
}

// ── Modules that hold too much ──────────────────────────────────────────────

/// Statements that define a public class or function.
pub open spec fn is_public_symbol() -> spec_fn(Stmt) -> bool {
    |s: Stmt|
        match s {
            Stmt::ClassDef(n) => !"_"@.is_prefix_of(identifier_text(n.name)),
            Stmt::FunctionDef(n) => !"_"@.is_prefix_of(identifier_text(n.name)),
            Stmt::AsyncFunctionDef(n) => !"_"@.is_prefix_of(identifier_text(n.name)),
            _ => false,
        }
}

proof fn lemma_public_symbols(body: Seq<Stmt>)
    ensures
        public_classes(body) + public_functions(body) == body.filter(is_public_symbol()).len(),
    decreases body.len(),
{
    reveal(Seq::filter);
    if body.len() > 0 {
        lemma_public_symbols(body.drop_last());
    }
}

/// A module with more than fifteen public classes and functions at its top level is reported,
/// once, and no other.
pub proof fn law_god_modules_are_reported(module: Mod, file: Seq<char>, package: Seq<char>)
    ensures
        body_of(module).filter(is_public_symbol()).len() > 15 ==> god_module(
            module,
            file,
            package,
        ).len() == 1 && god_module(module, file, package)[0].rule == "god-module"@ && god_module(
            module,
            file,
            package,
        )[0].severity == Severity::Warning && god_module(module, file, package)[0].file == file,
        body_of(module).filter(is_public_symbol()).len() <= 15 ==> god_module(
            module,
            file,
            package,
        ).len() == 0,
{
    lemma_public_symbols(body_of(module));
}

// ── Outer scopes ────────────────────────────────────────────────────────────

/// Whether a statement stands in a body, but in no function or class within it.
pub open spec fn is_own(body: Seq<Stmt>, s: Stmt) -> bool {
    exists|line: Seq<Stmt>| #[trigger]
        leads_inward(body, line) && line.last() == s && forall|k: int|
            0 <= k < line.len() - 1 ==> !((#[trigger] line[k]) is FunctionDef || line[k]
                is AsyncFunctionDef || line[k] is ClassDef)
}

/// Whether a statement declares a name to be of an outer scope.
pub open spec fn declares(s: Stmt, name: Seq<char>) -> bool {
    match s {
        Stmt::Global(n) => exists|i: int|
            0 <= i < n.names@.len() && identifier_text(#[trigger] n.names@[i]) == name,
        Stmt::Nonlocal(n) => exists|i: int|
            0 <= i < n.names@.len() && identifier_text(#[trigger] n.names@[i]) == name,
        _ => false,
    }
}

/// Whether a statement assigns to a name.
pub open spec fn assigns(s: Stmt, name: Seq<char>) -> bool {
    match s {
        Stmt::Assign(n) => exists|i: int|
            0 <= i < n.targets@.len() && (#[trigger] n.targets@[i] matches Expr::Name(t)
                && identifier_text(t.id) == name),
        Stmt::AugAssign(n) => *n.target matches Expr::Name(t) && identifier_text(t.id) == name,
        _ => false,
    }
}

proof fn lemma_own_found(body: Seq<Stmt>, s: &Stmt)
    requires
        is_own(body, *s),
    ensures
        reaches(walk_stmts(body, own_scope(), outset()), Node::Stmt(s)),
{
    let c = own_scope();
    let line = choose|line: Seq<Stmt>| #[trigger]
        leads_inward(body, line) && line.last() == *s && forall|k: int|
            0 <= k < line.len() - 1 ==> !((#[trigger] line[k]) is FunctionDef || line[k]
                is AsyncFunctionDef || line[k] is ClassDef);
    assert(walk_stmt(s, c, outset())[0].node == Node::Stmt(s));
    assert forall|k: int| 0 <= k < line.len() - 1 implies !stops_at_stmt(&#[trigger] line[k], c) by {
        assert(!(line[k] is FunctionDef));
    }
    lemma_reaches_inward(body, line, c, Node::Stmt(s));
}

proof fn lemma_declared(body: Seq<Stmt>, s: &Stmt, name: Seq<char>)
    requires
        is_own(body, *s),
        declares(*s, name),
    ensures
        scope_of(body).globals.contains(name) || scope_of(body).nonlocals.contains(name),
{
    let v = walk_stmts(body, own_scope(), outset());
    lemma_own_found(body, s);
    let k = choose|k: int| 0 <= k < v.len() && (#[trigger] v[k]).node == Node::Stmt(s);
    match s {
        Stmt::Global(n) => {
            let i = choose|i: int|
                0 <= i < n.names@.len() && identifier_text(#[trigger] n.names@[i]) == name;
            assert(each_text()(n.names@[i])[0] == name);
            assert(each_text()(n.names@[i]).contains(name));
            lemma_flat_map_contains(n.names@, each_text(), name);
            assert(globals_of()(v[k]).contains(name));
            lemma_flat_map_contains(v, globals_of(), name);
        },
        Stmt::Nonlocal(n) => {
            let i = choose|i: int|
                0 <= i < n.names@.len() && identifier_text(#[trigger] n.names@[i]) == name;
            assert(each_text()(n.names@[i])[0] == name);
            assert(each_text()(n.names@[i]).contains(name));
            lemma_flat_map_contains(n.names@, each_text(), name);
            assert(nonlocals_of()(v[k]).contains(name));
            lemma_flat_map_contains(v, nonlocals_of(), name);
        },
        _ => {},
    }
}

proof fn lemma_assigned(body: Seq<Stmt>, s: &Stmt, name: Seq<char>) -> (at: u32)
    requires
        is_own(body, *s),
        assigns(*s, name),
    ensures
        scope_of(body).assigned.contains((name, at)),
{
    let v = walk_stmts(body, own_scope(), outset());
    lemma_own_found(body, s);
    let k = choose|k: int| 0 <= k < v.len() && (#[trigger] v[k]).node == Node::Stmt(s);
    match s {
        Stmt::Assign(n) => {
            let at = range_start(n.range);
            let i = choose|i: int|
                0 <= i < n.targets@.len() && (#[trigger] n.targets@[i] matches Expr::Name(t)
                    && identifier_text(t.id) == name);
            assert(bound_at(at)(n.targets@[i])[0] == (name, at));
            assert(bound_at(at)(n.targets@[i]).contains((name, at)));
            lemma_flat_map_contains(n.targets@, bound_at(at), (name, at));
            assert(assigned_of()(v[k]).contains((name, at)));
            lemma_flat_map_contains(v, assigned_of(), (name, at));
            at
        },
        Stmt::AugAssign(n) => {
            let at = range_start(n.range);
            assert(assigned_of()(v[k])[0] == (name, at));
            assert(assigned_of()(v[k]).contains((name, at)));
            lemma_flat_map_contains(v, assigned_of(), (name, at));
            at
        },
        _ => 0,
    }
}

proof fn lemma_first_outer(scope: ScopeView, s: Seq<(Seq<char>, u32)>, x: (Seq<char>, u32))
    requires
        s.contains(x),
        scope.globals.contains(x.0) || scope.nonlocals.contains(x.0),
    ensures
        first_outer(scope, s) is Some,
    decreases s.len(),
{
    let k = s.index_of(x);
    if k < s.len() - 1 {
        assert(s.drop_last()[k] == x);
        lemma_first_outer(scope, s.drop_last(), x);
    }
}

/// A function that declares a name to be of an outer scope and assigns to it, both in its own
/// scope, is reported.
pub proof fn law_outer_mutations_are_reported(
    module: Mod,
    site: SiteView,
    f: &Stmt,
    declaration: &Stmt,
    assignment: &Stmt,
    name: Seq<char>,
)
    requires
        stands_in(body_of(module), *f),
        f is FunctionDef || f is AsyncFunctionDef,
        is_own(def_body(f), *declaration),
        declares(*declaration, name),
        is_own(def_body(f), *assignment),
        assigns(*assignment, name),
    ensures
        exists|i: int|
            0 <= i < outer_mutations(module, site).len() && is_on_outer(
                #[trigger] outer_mutations(module, site)[i],
                site,
                def_name(f),
            ),
{
    let all = functions(body_of(module));
    let g = each_outer_mutation(site);
    let scope = scope_of(def_body(f));
    lemma_declared(def_body(f), declaration, name);
    let at = lemma_assigned(def_body(f), assignment, name);
    lemma_first_outer(scope, scope.assigned, (name, at));
    law_functions_stand_in_the_body(body_of(module), f);
    let k = all.index_of(f);
    let x = g(f)[0];
    assert(g(all[k]).contains(x));
    lemma_flat_map_contains(all, g, x);
    let i = outer_mutations(module, site).index_of(x);
    let head = def_name(f) + "() mutates outer-scope variable '"@;
    assert(x.message.take(head.len() as int) =~= head);
    assert(is_on_outer(outer_mutations(module, site)[i], site, def_name(f)));
}

/// Whether a finding is on a function that assigns to a name of an outer scope.
pub open spec fn is_on_outer(x: IssueView, site: SiteView, name: Seq<char>) -> bool {
    x.rule == "scope-mutation"@ && x.severity == Severity::Info && x.file == site.file && (name
        + "() mutates outer-scope variable '"@).is_prefix_of(x.message)
}

// ── Chains ──────────────────────────────────────────────────────────────────

/// How long a chain is: a member access adds one to what it is an access to, a call adds
/// nothing to what is called, and anything else begins a chain.
pub proof fn law_members_lengthen_chains(e: &Expr)
    ensures
        match e {
            Expr::Attribute(a) => chain_length(&*a.value) < 0x7fff_ffff ==> chain_length(e) == 1
                + chain_length(&*a.value),
            Expr::Call(c) => chain_length(e) == chain_length(&*c.func),
            _ => chain_length(e) == 0,
        },
        chain_length(e) >= 0,
    decreases e,
{
    match e {
        Expr::Attribute(a) => law_members_lengthen_chains(&*a.value),
        Expr::Call(c) => law_members_lengthen_chains(&*c.func),
        _ => {},
    }
}

proof fn lemma_nearest_long(s: Seq<LinkView>, x: LinkView)
    ensures
        s.contains(x) && is_long(x) ==> nearest_long(s) is Some,
        nearest_long(s) matches Some(y) ==> s.contains(y) && is_long(y),
    decreases s.len(),
{
    if s.len() > 0 {
        let rest = s.drop_last();
        lemma_nearest_long(rest, x);
        assert(s[s.len() - 1] == s.last());
        if s.contains(x) {
            let k = s.index_of(x);
            if k < rest.len() {
                assert(rest[k] == x);
            }
        }
        if let Some(y) = nearest_long(rest) {
            let k = rest.index_of(y);
            assert(s[k] == y);
        }
    }
}

/// A top-level statement that holds a call or member access at the end of a chain of more than
/// three members is reported, once.
pub proof fn law_long_chains_are_reported(module: Mod, site: SiteView, k: int, e: &Expr)
    requires
        0 <= k < body_of(module).len(),
        expression_in(seq![body_of(module)[k]], *e),
        e is Call || e is Attribute,
        chain_length(e) > 3,
    ensures
        long_chain(site)(body_of(module)[k]).len() == 1,
        exists|i: int|
            0 <= i < long_chains(module, site).len() && (#[trigger] long_chains(module, site)[i])
                == long_chain(site)(body_of(module)[k])[0] && long_chains(module, site)[i].rule
                == "message-chain"@ && long_chains(module, site)[i].severity == Severity::Info,
{
    let body = body_of(module);
    let s = body[k];
    let one = seq![s];
    law_expressions_are_found(one, e);
    assert(one.drop_last() =~= Seq::<Stmt>::empty());
    assert(walk_stmts(Seq::<Stmt>::empty(), expressions(), outset()) =~= seq![]);
    let v = walk_stmt(&s, expressions(), outset());
    assert(walk_stmts(one, expressions(), outset()) =~= v);
    let j = choose|j: int| 0 <= j < v.len() && (#[trigger] v[j]).node == Node::Expr(e);
    let x = link_of()(v[j])[0];
    assert(link_of()(v[j]).contains(x));
    lemma_flat_map_contains(v, link_of(), x);
    lemma_nearest_long(links_in(&s), x);
    let f = long_chain(site);
    let y = f(s)[0];
    assert(f(body[k]).contains(y));
    lemma_flat_map_contains(body, f, y);
    let i = long_chains(module, site).index_of(y);
    assert(long_chains(module, site)[i] == y);
}

/// What is reported as a long chain is a call or member access of the file at the end of a
/// chain of more than three members.
pub proof fn law_reported_chains_are_long(module: Mod, site: SiteView, x: IssueView) -> (r: (
    int,
    Expr,
))
    requires
        long_chains(module, site).contains(x),
    ensures
        0 <= r.0 < body_of(module).len(),
        r.1 is Call || r.1 is Attribute,
        chain_length(&r.1) > 3,
        reaches(
            walk_stmt(&body_of(module)[r.0], expressions(), outset()),
            Node::Expr(&r.1),
        ),
        x.rule == "message-chain"@,
        x.severity == Severity::Info,
{
    let body = body_of(module);
    let f = long_chain(site);
    lemma_flat_map_contains(body, f, x);
    let k = choose|k: int| 0 <= k < body.len() && f(#[trigger] body[k]).contains(x);
    let links = links_in(&body[k]);
    let link = nearest_long(links)->0;
    lemma_nearest_long(links, link);
    let v = walk_stmt(&body[k], expressions(), outset());
    lemma_flat_map_contains(v, link_of(), link);
    let j = choose|j: int| 0 <= j < v.len() && link_of()(#[trigger] v[j]).contains(link);
    match v[j].node {
        Node::Expr(e) => {
            assert(reaches(v, Node::Expr(e)));
            (k, *e)
        },
        _ => (k, arbitrary()),
    }
}

/// Whether a scope declares a name to be of an outer scope.
pub open spec fn is_outer(scope: ScopeView, name: Seq<char>) -> bool {
    scope.globals.contains(name) || scope.nonlocals.contains(name)
}

proof fn lemma_first_of_outer(scope: ScopeView, s: Seq<(Seq<char>, u32)>, i: int)
    requires
        0 <= i < s.len(),
        is_outer(scope, s[i].0),
        forall|j: int| 0 <= j < i ==> !is_outer(scope, (#[trigger] s[j]).0),
    ensures
        first_outer(scope, s) == Some(s[i]),
    decreases s.len(),
{
    let rest = s.drop_last();
    if i < s.len() - 1 {
        assert(rest[i] == s[i]);
        assert forall|j: int| 0 <= j < i implies !is_outer(scope, (#[trigger] rest[j]).0) by {
            assert(rest[j] == s[j]);
        }
        lemma_first_of_outer(scope, rest, i);
    } else {
        assert forall|j: int| 0 <= j < rest.len() implies !is_outer(
            scope,
            (#[trigger] rest[j]).0,
        ) by {
            assert(rest[j] == s[j]);
        }
        lemma_no_outer(scope, rest);
    }
}

proof fn lemma_no_outer(scope: ScopeView, s: Seq<(Seq<char>, u32)>)
    requires
        forall|j: int| 0 <= j < s.len() ==> !is_outer(scope, (#[trigger] s[j]).0),
    ensures
        first_outer(scope, s) is None,
    decreases s.len(),
{
    if s.len() > 0 {
        let rest = s.drop_last();
        assert forall|j: int| 0 <= j < rest.len() implies !is_outer(
            scope,
            (#[trigger] rest[j]).0,
        ) by {
            assert(rest[j] == s[j]);
        }
        assert(!is_outer(scope, s[s.len() - 1].0));
        lemma_no_outer(scope, rest);
    }
}

/// A function is reported once, at the first of its assignments to a name of an outer scope, with
/// the name and how it is declared; one without such an assignment is not.
pub proof fn law_first_outer_assignment_is_told(site: SiteView, f: &Stmt, i: int)
    ensures
        ({
            let scope = scope_of(def_body(f));
            let r = each_outer_mutation(site)(f);
            let name = scope.assigned[i].0;
            &&& (forall|j: int|
                0 <= j < scope.assigned.len() ==> !is_outer(
                    scope,
                    (#[trigger] scope.assigned[j]).0,
                )) ==> r.len() == 0
            &&& 0 <= i < scope.assigned.len() && is_outer(scope, name) && (forall|j: int|
                0 <= j < i ==> !is_outer(scope, (#[trigger] scope.assigned[j]).0)) ==> {
                &&& r.len() == 1
                &&& r[0].line == line_in(site.starts, scope.assigned[i].1 as nat)
                &&& r[0].message == def_name(f) + "() mutates outer-scope variable '"@ + name
                    + "' via "@ + (if !scope.nonlocals.contains(name) {
                    "global"@
                } else if !scope.globals.contains(name) {
                    "nonlocal"@
                } else {
                    "global"@ + "/"@ + "nonlocal"@
                }) + " — shared mutable state makes control flow hard to trace"@
            }
        }),
{
    let scope = scope_of(def_body(f));
    if forall|j: int|
        0 <= j < scope.assigned.len() ==> !is_outer(scope, (#[trigger] scope.assigned[j]).0) {
        lemma_no_outer(scope, scope.assigned);
    }
    if 0 <= i < scope.assigned.len() && is_outer(scope, scope.assigned[i].0) && (forall|j: int|
        0 <= j < i ==> !is_outer(scope, (#[trigger] scope.assigned[j]).0)) {
        lemma_first_of_outer(scope, scope.assigned, i);
        let words = declared_by(scope, scope.assigned[i].0);
        reveal_with_fuel(join, 3);
        if words.len() == 2 {
            assert(words =~= seq!["global"@, "nonlocal"@]);
            assert(words.drop_last() =~= seq!["global"@]);
        } else if scope.globals.contains(scope.assigned[i].0) {
            assert(words =~= seq!["global"@]);
        } else {
            assert(words =~= seq!["nonlocal"@]);
        }
    }
}

/// Of the long chains in a statement the one nearest to the surface is told, of several the
/// first.
pub proof fn law_nearest_chain_is_told(s: Seq<LinkView>, i: int)
    requires
        0 <= i < s.len(),
        s[i].length > 3,
        forall|j: int|
            0 <= j < s.len() && (#[trigger] s[j]).length > 3 ==> s[i].depth < s[j].depth || (
            s[i].depth == s[j].depth && i <= j),
    ensures
        nearest_long(s) == Some(s[i]),
    decreases s.len(),
{
    let rest = s.drop_last();
    if i < s.len() - 1 {
        assert(rest[i] == s[i]);
        assert forall|j: int| 0 <= j < rest.len() && (#[trigger] rest[j]).length > 3 implies rest[
            i
        ].depth < rest[j].depth || (rest[i].depth == rest[j].depth && i <= j) by {
            assert(rest[j] == s[j]);
        }
        law_nearest_chain_is_told(rest, i);
        assert(s[s.len() - 1] == s.last());
    } else {
        if nearest_long(rest) is Some {
            let b = nearest_long(rest)->0;
            lemma_nearest_long(rest, b);
            let j = rest.index_of(b);
            assert(s[j] == b);
        }
    }
}

} // verus!
