//! The checks of a file's syntax tree, and all of them in order.

pub use crate::checks::classes::{
    check_deep_inheritance, check_encapsulation_violations, check_excessive_decorators,
    check_god_class, check_lazy_class, check_pass_through_methods,
};
pub use crate::checks::flow::{
    check_bare_except, check_dead_code, check_duplicate_branches, check_missing_else,
    check_swallowed_exceptions,
};
pub use crate::checks::functions::{
    check_boolean_flag_params, check_complexity, check_deep_nesting, check_excessive_params,
    check_excessive_returns, check_long_functions, check_missing_types, check_mutable_defaults,
    count_functions,
};
pub use crate::checks::imports::{
    check_circular_imports, check_layer_violations, check_star_imports, check_transport_in_library,
    check_unused_imports, collect_imported_names, collect_used_names,
};
pub use crate::checks::literals::{check_magic_numbers, check_magic_strings, check_untyped_dicts};
pub use crate::checks::scope::{
    check_global_mutations, check_god_module, check_message_chains, check_scope_mutations,
};

use crate::checks::common::{site_of, SiteView};
use crate::checks::classes::{
    decorated_definitions, deep_classes, god_classes, lazy_classes, pass_throughs, private_accesses,
};
use crate::checks::flow::{
    bare_handlers, dead_code, duplicate_branches, missing_elses, swallowed_exceptions,
};
use crate::checks::functions::{
    complex_functions, flagged_functions, functions_with_many_returns, long_functions,
    mutable_defaults, nested_functions, untyped_functions, wide_functions,
};
use crate::checks::imports::{
    layer_violations, parent_imports, star_imports, transport_imports, unused_imports,
};
use crate::checks::literals::{magic_numbers, magic_strings, untyped_dicts};
use crate::checks::scope::{god_module, long_chains, mutable_globals, outer_mutations};
use crate::models::{append_issues, issue_views, Issue, IssueView};
use rustpython_ast::Mod;
use vstd::prelude::*;

verus! {

/// The findings of all checks of a file, check by check.
pub open spec fn file_findings(module: Mod, site: SiteView) -> Seq<IssueView> {
    long_functions(module, site)
        + complex_functions(module, site)
        + untyped_functions(module, site)
        + wide_functions(module, site)
        + functions_with_many_returns(module, site)
        + flagged_functions(module, site)
        + nested_functions(module, site)
        + mutable_defaults(module, site)
        + bare_handlers(module, site)
        + missing_elses(module, site)
        + unused_imports(module, site)
        + swallowed_exceptions(module, site)
        + star_imports(module, site)
        + mutable_globals(module, site)
        + outer_mutations(module, site)
        + dead_code(module, site)
        + decorated_definitions(module, site)
        + lazy_classes(module, site)
        + magic_numbers(module, site)
        + magic_strings(module, site)
        + untyped_dicts(module, site)
        + duplicate_branches(module, site)
        + private_accesses(module, site)
        + god_classes(module, site)
        + transport_imports(module, site)
        + god_module(module, site.file, site.package)
        + deep_classes(module, site)
        + pass_throughs(module, site)
        + long_chains(module, site)
}

/// The findings of all checks of a file.
pub fn all_checks(module: &Mod, source: &str, filepath: &str, package: &str) -> (r: Vec<Issue>)
    ensures
        issue_views(r@) == file_findings(*module, site_of(source@, filepath@, package@)),
{
    let mut issues = check_long_functions(module, source, filepath, package);
    append_issues(&mut issues, check_complexity(module, source, filepath, package));
    append_issues(&mut issues, check_missing_types(module, source, filepath, package));
    append_issues(&mut issues, check_excessive_params(module, source, filepath, package));
    append_issues(&mut issues, check_excessive_returns(module, source, filepath, package));
    append_issues(&mut issues, check_boolean_flag_params(module, source, filepath, package));
    append_issues(&mut issues, check_deep_nesting(module, source, filepath, package));
    append_issues(&mut issues, check_mutable_defaults(module, source, filepath, package));
    append_issues(&mut issues, check_bare_except(module, source, filepath, package));
    append_issues(&mut issues, check_missing_else(module, source, filepath, package));
    append_issues(&mut issues, check_unused_imports(module, source, filepath, package));
    append_issues(&mut issues, check_swallowed_exceptions(module, source, filepath, package));
    append_issues(&mut issues, check_star_imports(module, source, filepath, package));
    append_issues(&mut issues, check_global_mutations(module, source, filepath, package));
    append_issues(&mut issues, check_scope_mutations(module, source, filepath, package));
    append_issues(&mut issues, check_dead_code(module, source, filepath, package));
    append_issues(&mut issues, check_excessive_decorators(module, source, filepath, package));
    append_issues(&mut issues, check_lazy_class(module, source, filepath, package));
    append_issues(&mut issues, check_magic_numbers(module, source, filepath, package));
    append_issues(&mut issues, check_magic_strings(module, source, filepath, package));
    append_issues(&mut issues, check_untyped_dicts(module, source, filepath, package));
    append_issues(&mut issues, check_duplicate_branches(module, source, filepath, package));
    append_issues(&mut issues, check_encapsulation_violations(module, source, filepath, package));
    append_issues(&mut issues, check_god_class(module, source, filepath, package));
    append_issues(&mut issues, check_transport_in_library(module, source, filepath, package));
    append_issues(&mut issues, check_god_module(module, source, filepath, package));
    append_issues(&mut issues, check_deep_inheritance(module, source, filepath, package));
    append_issues(&mut issues, check_pass_through_methods(module, source, filepath, package));
    append_issues(&mut issues, check_message_chains(module, source, filepath, package));
    issues
}

/// The findings of the checks that look at a file's place in its package.
pub open spec fn placed_findings(module: Mod, site: SiteView, pkg_root: Seq<char>) -> Seq<
    IssueView,
> {
    layer_violations(module, site, pkg_root) + parent_imports(module, site, pkg_root)
}

/// The findings of the checks that look at a file's place in its package.
pub fn pkg_root_checks(
    module: &Mod,
    source: &str,
    filepath: &str,
    package: &str,
    pkg_root: &str,
) -> (r: Vec<Issue>)
    ensures
        issue_views(r@) == placed_findings(
            *module,
            site_of(source@, filepath@, package@),
            pkg_root@,
        ),
{
    let mut issues = check_layer_violations(module, source, filepath, package, pkg_root);
    append_issues(
        &mut issues,
        check_circular_imports(module, source, filepath, package, pkg_root),
    );
    issues
}

/// Whether a finding is one of those that a check of a file makes.
pub open spec fn is_found_by_a_check(module: Mod, site: SiteView, x: IssueView) -> bool {
    ||| long_functions(module, site).contains(x)
    ||| complex_functions(module, site).contains(x)
    ||| untyped_functions(module, site).contains(x)
    ||| wide_functions(module, site).contains(x)
    ||| functions_with_many_returns(module, site).contains(x)
    ||| flagged_functions(module, site).contains(x)
    ||| nested_functions(module, site).contains(x)
    ||| mutable_defaults(module, site).contains(x)
    ||| bare_handlers(module, site).contains(x)
    ||| missing_elses(module, site).contains(x)
    ||| unused_imports(module, site).contains(x)
    ||| swallowed_exceptions(module, site).contains(x)
    ||| star_imports(module, site).contains(x)
    ||| mutable_globals(module, site).contains(x)
    ||| outer_mutations(module, site).contains(x)
    ||| dead_code(module, site).contains(x)
    ||| decorated_definitions(module, site).contains(x)
    ||| lazy_classes(module, site).contains(x)
    ||| magic_numbers(module, site).contains(x)
    ||| magic_strings(module, site).contains(x)
    ||| untyped_dicts(module, site).contains(x)
    ||| duplicate_branches(module, site).contains(x)
    ||| private_accesses(module, site).contains(x)
    ||| god_classes(module, site).contains(x)
    ||| transport_imports(module, site).contains(x)
    ||| god_module(module, site.file, site.package).contains(x)
    ||| deep_classes(module, site).contains(x)
    ||| pass_throughs(module, site).contains(x)
    ||| long_chains(module, site).contains(x)
}

/// Every finding of every check of a file is among the findings on the file, and these are
/// findings of the checks.
pub proof fn law_every_check_is_made(
    module: Mod,
    site: SiteView,
    pkg_root: Seq<char>,
    x: IssueView,
)
    ensures
        file_findings(module, site).contains(x) <==> is_found_by_a_check(module, site, x),
        placed_findings(module, site, pkg_root).contains(x) <==> layer_violations(
            module,
            site,
            pkg_root,
        ).contains(x) || parent_imports(module, site, pkg_root).contains(x),
{
    broadcast use vstd::seq_lib::lemma_seq_concat_contains_all_elements;

}

} // verus!
