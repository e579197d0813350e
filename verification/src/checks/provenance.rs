//! What the findings of all checks have in common: each is on the package that was looked
//! at, and none has a justification of its own.

use crate::ast_helpers::{def_args, functions};
use crate::checks::ast_per_file::{file_findings, placed_findings};
use crate::checks::classes::{
    classes_in, decorated_definitions, deep_classes, each_decorated_definition, each_deep_class,
    each_god_class, each_lazy_class, each_pass_through, each_private_access, god_classes,
    lazy_classes, pass_throughs, private_accesses,
};
use crate::checks::common::{body_of, SiteView};
use crate::checks::cycles::{cycle_issue, import_cycles, import_graph, without_dots};
use crate::checks::duplicates::{
    bodies, duplicate_functions, duplicate_issue, law_reported_bodies_are_shared,
};
use crate::checks::flow::{
    bare_handlers, dead_code, dead_in, dead_in_handlers, dead_inside, duplicate_branches,
    each_bare_handler, each_dead_function, each_dead_inside, each_duplicate_branch,
    each_missing_else, each_swallowed, missing_elses, swallowed_exceptions,
};
use crate::checks::functions::{
    complex_functions, each_complex_function, each_flagged_function, each_long_function,
    each_many_returns, each_mutable_default, each_nested_function, each_untyped_function,
    each_untyped_param, each_wide_function, flagged_functions, functions_with_many_returns,
    long_functions, mutable_defaults, nested_functions, untyped_functions, wide_functions,
};
use crate::checks::imports::{
    broken_layer, each_forbidden_import, each_star, each_star_import, each_transport_import,
    each_unused_import, imported_names, layer_violations, named_modules, parent_import,
    parent_imports, star_imports, transport_imports, unused_imports, used_names,
};
use crate::checks::literals::{
    each_magic_function, each_magic_number, each_magic_string, magic_numbers, magic_strings,
    string_comparisons, unexplained, untyped_dicts,
};
use crate::checks::package_level::ParsedFile;
use crate::checks::scope::{
    each_mutable_global, each_outer_mutation, god_module, long_chain, long_chains, mutable_globals,
    mutable_globals_of, outer_mutations,
};
use crate::checks::text_per_file::{long_file, todo_lines, todo_markers};
use crate::checks::twins::sync_async_twins;
use crate::config::{layers, own_prefix};
use crate::graph::cycles_in;
use crate::models::{IssueView, Ratio};
use crate::order::sorted;
use crate::paths::{module_parts, strip_prefix};
use crate::text::lines;
use crate::walk::{expressions, outset, statements, walk_stmt, walk_stmts, Node, Seen};
use rustpython_ast::{ExceptHandler, Mod, Stmt};
use vstd::prelude::*;

verus! {

/// Whether findings are on a package and have no justification.
pub open spec fn are_on(package: Seq<char>, s: Seq<IssueView>) -> bool {
    forall|i: int|
        0 <= i < s.len() ==> (#[trigger] s[i]).package == package && s[i].reason is None
}

// ── Lists of findings ───────────────────────────────────────────────────────

/// Two lists of findings on a package make one.
pub broadcast proof fn lemma_both_on(package: Seq<char>, a: Seq<IssueView>, b: Seq<IssueView>)
    requires
        are_on(package, a),
        are_on(package, b),
    ensures
        #[trigger] are_on(package, a + b),
{
    let s = a + b;
    assert forall|i: int| 0 <= i < s.len() implies (#[trigger] s[i]).package == package
        && s[i].reason is None by {
        if i < a.len() {
            assert(s[i] == a[i]);
        } else {
            assert(s[i] == b[i - a.len()]);
        }
    }
}

/// Where all findings on each of a list of things are on a package, so are all together.
pub proof fn lemma_each_on<A>(package: Seq<char>, s: Seq<A>, f: spec_fn(A) -> Seq<IssueView>)
    requires
        forall|x: A| are_on(package, #[trigger] f(x)),
    ensures
        are_on(package, s.flat_map(f)),
    decreases s.len(),
{
    if s.len() == 0 {
        assert(s.flat_map(f) =~= seq![]);
    } else {
        let rest = s.drop_last();
        lemma_each_on(package, rest, f);
        rest.lemma_flat_map_push(f, s.last());
        assert(s =~= rest.push(s.last()));
        lemma_both_on(package, rest.flat_map(f), f(s.last()));
    }
}

// ── Checks of functions ─────────────────────────────────────────────────────

proof fn lemma_long_functions(module: Mod, site: SiteView)
    ensures
        are_on(site.package, long_functions(module, site)),
{
    lemma_each_on(site.package, functions(body_of(module)), each_long_function(site));
}

proof fn lemma_complex_functions(module: Mod, site: SiteView)
    ensures
        are_on(site.package, complex_functions(module, site)),
{
    lemma_each_on(site.package, functions(body_of(module)), each_complex_function(site));
}

proof fn lemma_untyped_functions(module: Mod, site: SiteView)
    ensures
        are_on(site.package, untyped_functions(module, site)),
{
    let f = each_untyped_function(site);
    assert forall|s: &Stmt| are_on(site.package, #[trigger] f(s)) by {
        lemma_each_on(site.package, def_args(s).args@, each_untyped_param(site, s));
        broadcast use lemma_both_on;

    }
    lemma_each_on(site.package, functions(body_of(module)), f);
}

proof fn lemma_wide_functions(module: Mod, site: SiteView)
    ensures
        are_on(site.package, wide_functions(module, site)),
{
    lemma_each_on(site.package, functions(body_of(module)), each_wide_function(site));
}

proof fn lemma_many_returns(module: Mod, site: SiteView)
    ensures
        are_on(site.package, functions_with_many_returns(module, site)),
{
    lemma_each_on(site.package, functions(body_of(module)), each_many_returns(site));
}

proof fn lemma_flagged_functions(module: Mod, site: SiteView)
    ensures
        are_on(site.package, flagged_functions(module, site)),
{
    lemma_each_on(site.package, functions(body_of(module)), each_flagged_function(site));
}

proof fn lemma_nested_functions(module: Mod, site: SiteView)
    ensures
        are_on(site.package, nested_functions(module, site)),
{
    lemma_each_on(site.package, functions(body_of(module)), each_nested_function(site));
}

proof fn lemma_mutable_defaults(module: Mod, site: SiteView)
    ensures
        are_on(site.package, mutable_defaults(module, site)),
{
    lemma_each_on(site.package, functions(body_of(module)), each_mutable_default(site));
}

// ── Checks of the flow ──────────────────────────────────────────────────────

proof fn lemma_bare_handlers(module: Mod, site: SiteView)
    ensures
        are_on(site.package, bare_handlers(module, site)),
{
    lemma_each_on(site.package, walk_stmts(body_of(module), statements(), outset()), each_bare_handler(site));
}

proof fn lemma_missing_elses(module: Mod, site: SiteView)
    ensures
        are_on(site.package, missing_elses(module, site)),
{
    lemma_each_on(site.package, walk_stmts(body_of(module), statements(), outset()), each_missing_else(site));
}

proof fn lemma_swallowed_exceptions(module: Mod, site: SiteView)
    ensures
        are_on(site.package, swallowed_exceptions(module, site)),
{
    lemma_each_on(site.package, walk_stmts(body_of(module), statements(), outset()), each_swallowed(site));
}

proof fn lemma_duplicate_branches(module: Mod, site: SiteView)
    ensures
        are_on(site.package, duplicate_branches(module, site)),
{
    lemma_each_on(site.package, walk_stmts(body_of(module), statements(), outset()), each_duplicate_branch(site));
}

broadcast proof fn lemma_dead_in(site: SiteView, body: Seq<Stmt>)
    ensures
        are_on(site.package, #[trigger] dead_in(site, body)),
{
}

proof fn lemma_dead_in_handlers(site: SiteView, handlers: Seq<ExceptHandler>)
    ensures
        are_on(site.package, dead_in_handlers(site, handlers)),
    decreases handlers.len(),
{
    broadcast use {lemma_both_on, lemma_dead_in};

    if handlers.len() > 0 {
        lemma_dead_in_handlers(site, handlers.drop_last());
    }
}

proof fn lemma_dead_inside(site: SiteView, s: &Stmt)
    ensures
        are_on(site.package, dead_inside(site, s)),
{
    broadcast use {lemma_both_on, lemma_dead_in};

    if let Stmt::Try(n) = s {
        lemma_dead_in_handlers(site, n.handlers@);
    }
}

proof fn lemma_dead_code(module: Mod, site: SiteView)
    ensures
        are_on(site.package, dead_code(module, site)),
{
    let f = each_dead_function(site);
    let g = each_dead_inside(site);
    assert forall|s: Stmt| are_on(site.package, #[trigger] g(s)) by {
        lemma_dead_inside(site, &s);
    }
    assert forall|s: &Stmt| are_on(site.package, #[trigger] f(s)) by {
        broadcast use {lemma_both_on, lemma_dead_in};

        lemma_each_on(site.package, crate::ast_helpers::def_body(s), g);
    }
    lemma_each_on(site.package, functions(body_of(module)), f);
}

// ── Checks of imports ───────────────────────────────────────────────────────

proof fn lemma_unused_imports(module: Mod, site: SiteView)
    ensures
        are_on(site.package, unused_imports(module, site)),
{
    lemma_each_on(
        site.package,
        sorted(imported_names(module), crate::checks::imports::by_position()),
        each_unused_import(site, used_names(module)),
    );
}

proof fn lemma_star_imports(module: Mod, site: SiteView)
    ensures
        are_on(site.package, star_imports(module, site)),
{
    let f = each_star_import(site);
    assert forall|v: Seen| are_on(site.package, #[trigger] f(v)) by {
        if let Node::Stmt(Stmt::ImportFrom(n)) = v.node {
            lemma_each_on(site.package, n.names@, each_star(site, n));
        }
    }
    lemma_each_on(site.package, walk_stmts(body_of(module), statements(), outset()), f);
}

proof fn lemma_transport_imports(module: Mod, site: SiteView)
    ensures
        are_on(site.package, transport_imports(module, site)),
{
    lemma_each_on(site.package, walk_stmts(body_of(module), statements(), outset()), each_transport_import(site));
}

proof fn lemma_layer_violations(module: Mod, site: SiteView, pkg_root: Seq<char>)
    ensures
        are_on(site.package, layer_violations(module, site, pkg_root)),
{
    if let Some(rel) = strip_prefix(site.file, pkg_root) {
        let imports = named_modules(module);
        let f = broken_layer(site, rel, imports);
        assert forall|rule: (Seq<char>, Seq<Seq<char>>)|
            are_on(site.package, #[trigger] f(rule)) by {
            lemma_each_on(site.package, imports, each_forbidden_import(site, rel, rule.1));
        }
        lemma_each_on(site.package, layers(site.package), f);
    }
}

proof fn lemma_parent_imports(module: Mod, site: SiteView, pkg_root: Seq<char>)
    ensures
        are_on(site.package, parent_imports(module, site, pkg_root)),
{
    if let Some(parts) = module_parts(pkg_root, site.file) {
        lemma_each_on(site.package, body_of(module), parent_import(site, parts));
    }
}

// ── Checks of classes, literals and scopes ──────────────────────────────────

proof fn lemma_decorated_definitions(module: Mod, site: SiteView)
    ensures
        are_on(site.package, decorated_definitions(module, site)),
{
    lemma_each_on(site.package, walk_stmts(body_of(module), statements(), outset()), each_decorated_definition(site));
}

proof fn lemma_lazy_classes(module: Mod, site: SiteView)
    ensures
        are_on(site.package, lazy_classes(module, site)),
{
    lemma_each_on(site.package, walk_stmts(body_of(module), statements(), outset()), each_lazy_class(site));
}

proof fn lemma_god_classes(module: Mod, site: SiteView)
    ensures
        are_on(site.package, god_classes(module, site)),
{
    lemma_each_on(site.package, walk_stmts(body_of(module), statements(), outset()), each_god_class(site));
}

proof fn lemma_pass_throughs(module: Mod, site: SiteView)
    ensures
        are_on(site.package, pass_throughs(module, site)),
{
    lemma_each_on(site.package, walk_stmts(body_of(module), statements(), outset()), each_pass_through(site));
}

proof fn lemma_private_accesses(module: Mod, site: SiteView)
    ensures
        are_on(site.package, private_accesses(module, site)),
{
    lemma_each_on(site.package, walk_stmts(body_of(module), expressions(), outset()), each_private_access(site));
}

proof fn lemma_deep_classes(module: Mod, site: SiteView)
    ensures
        are_on(site.package, deep_classes(module, site)),
{
    let classes = classes_in(body_of(module));
    lemma_each_on(site.package, classes, each_deep_class(site, classes));
}

proof fn lemma_magic_numbers(module: Mod, site: SiteView)
    ensures
        are_on(site.package, magic_numbers(module, site)),
{
    let f = each_magic_function(site);
    assert forall|s: &Stmt| are_on(site.package, #[trigger] f(s)) by {
        lemma_each_on(
            site.package,
            walk_stmt(s, unexplained(), outset()),
            each_magic_number(site),
        );
    }
    lemma_each_on(site.package, functions(body_of(module)), f);
}

proof fn lemma_magic_strings(module: Mod, site: SiteView)
    ensures
        are_on(site.package, magic_strings(module, site)),
{
    let all = string_comparisons(module);
    lemma_each_on(site.package, all, each_magic_string(site, all));
}

proof fn lemma_mutable_globals(module: Mod, site: SiteView)
    ensures
        are_on(site.package, mutable_globals(module, site)),
{
    let f = mutable_globals_of(site);
    assert forall|s: Stmt| are_on(site.package, #[trigger] f(s)) by {
        if let Stmt::Assign(n) = s {
            lemma_each_on(site.package, n.targets@, each_mutable_global(site, &n));
        }
    }
    lemma_each_on(site.package, body_of(module), f);
}

proof fn lemma_outer_mutations(module: Mod, site: SiteView)
    ensures
        are_on(site.package, outer_mutations(module, site)),
{
    lemma_each_on(site.package, functions(body_of(module)), each_outer_mutation(site));
}

proof fn lemma_long_chains(module: Mod, site: SiteView)
    ensures
        are_on(site.package, long_chains(module, site)),
{
    lemma_each_on(site.package, body_of(module), long_chain(site));
}

// ── Files and packages ──────────────────────────────────────────────────────

/// The findings on a file's syntax tree are on its package and have no justification.
pub proof fn law_file_findings_are_on_the_package(module: Mod, site: SiteView, pkg_root: Seq<char>)
    ensures
        are_on(site.package, file_findings(module, site)),
        are_on(site.package, placed_findings(module, site, pkg_root)),
{
    broadcast use lemma_both_on;

    lemma_long_functions(module, site);
    lemma_complex_functions(module, site);
    lemma_untyped_functions(module, site);
    lemma_wide_functions(module, site);
    lemma_many_returns(module, site);
    lemma_flagged_functions(module, site);
    lemma_nested_functions(module, site);
    lemma_mutable_defaults(module, site);
    lemma_bare_handlers(module, site);
    lemma_missing_elses(module, site);
    lemma_unused_imports(module, site);
    lemma_swallowed_exceptions(module, site);
    lemma_star_imports(module, site);
    lemma_mutable_globals(module, site);
    lemma_outer_mutations(module, site);
    lemma_dead_code(module, site);
    lemma_decorated_definitions(module, site);
    lemma_lazy_classes(module, site);
    lemma_magic_numbers(module, site);
    lemma_magic_strings(module, site);
    lemma_duplicate_branches(module, site);
    lemma_private_accesses(module, site);
    lemma_god_classes(module, site);
    lemma_transport_imports(module, site);
    lemma_deep_classes(module, site);
    lemma_pass_throughs(module, site);
    lemma_long_chains(module, site);
    lemma_layer_violations(module, site, pkg_root);
    lemma_parent_imports(module, site, pkg_root);
    assert(are_on(site.package, untyped_dicts(module, site)));
    assert(are_on(site.package, god_module(module, site.file, site.package)));
}

/// The findings on a file's lines are on its package and have no justification.
pub proof fn law_text_findings_are_on_the_package(source: Seq<char>, file: Seq<char>, package: Seq<char>)
    ensures
        are_on(package, long_file(source, file, package)),
        are_on(package, todo_markers(source, file, package)),
{
    lemma_todo_lines(file, package, lines(source));
}

proof fn lemma_todo_lines(file: Seq<char>, package: Seq<char>, all: Seq<Seq<char>>)
    ensures
        are_on(package, todo_lines(file, package, all)),
    decreases all.len(),
{
    broadcast use lemma_both_on;

    if all.len() > 0 {
        lemma_todo_lines(file, package, all.drop_last());
    }
}

/// The findings on a package as a whole are on it and have no justification.
pub proof fn law_package_findings_are_on_the_package(
    package: Seq<char>,
    files: Seq<ParsedFile>,
    root: Seq<char>,
    min_lines: nat,
    min: Ratio,
)
    ensures
        are_on(package, import_cycles(package, files, root)),
        are_on(package, duplicate_functions(package, files, min_lines)),
        are_on(package, sync_async_twins(package, files, min)),
{
    if let Some(prefix) = own_prefix(package) {
        lemma_each_on(
            package,
            cycles_in(import_graph(files, root, without_dots(prefix))),
            cycle_issue(package, files, root),
        );
    }
    let found = duplicate_functions(package, files, min_lines);
    assert forall|i: int| 0 <= i < found.len() implies (#[trigger] found[i]).package == package
        && found[i].reason is None by {
        law_reported_bodies_are_shared(package, files, min_lines, found[i]);
        let all = bodies(files, min_lines);
        let key = choose|key: Seq<char>| #[trigger]
            duplicate_issue(package, all)(key) == seq![found[i]];
        assert(duplicate_issue(package, all)(key)[0] == found[i]);
    }
}

} // verus!
