//! Which functions the checks of their measures report.

use crate::ast_helpers::{
    complexity, def_args, def_name, def_range, def_returns, functions, is_def,
    law_line_counts_line_feeds, line_feeds, nesting, own_returns,
};
use crate::checks::common::{body_of, site_of, SiteView};
use crate::checks::functions::{
    complex_functions, each_complex_function, each_flag, each_flagged_function, each_long_function,
    each_many_returns, each_mutable_default, each_nested_function, each_untyped_function,
    each_untyped_param, each_wide_function, flagged_functions, function_lines,
    functions_with_many_returns, long_functions, mutable_defaults, nested_functions,
    untyped_functions, wide_functions,
};
use crate::checks::reporting::{
    finds_function, has_one_at, is_at, is_on_functions, lemma_on_functions,
};
use crate::definitions::law_functions_stand_in_the_body;
use crate::models::{IssueView, Severity};
use crate::order::lemma_flat_map_contains;
use crate::syntax::{identifier_text, range_end, range_start};
use crate::text::dec;
use crate::within::stands_in;
use rustpython_ast::{ArgWithDefault, Arguments, Constant, Expr, Mod, Stmt};
use vstd::prelude::*;
use vstd::string::*;
use vstd::utf8::encode_utf8;

verus! {

/// A finding that is a note, a warning or an error whatever it is on.
pub open spec fn always(severity: Severity) -> spec_fn(Stmt) -> Severity {
    |s: Stmt| severity
}

/// Functions of more than so many lines.
pub open spec fn more_lines(site: SiteView, n: nat) -> spec_fn(Stmt) -> bool {
    |s: Stmt| function_lines(site, &s) > n
}

pub open spec fn lines_told(site: SiteView) -> spec_fn(Stmt) -> Seq<char> {
    |s: Stmt| def_name(&s) + "() is "@ + dec(function_lines(site, &s)) + " lines (max "@
}

/// Functions with a complexity above a number.
pub open spec fn more_complex(n: int) -> spec_fn(Stmt) -> bool {
    |s: Stmt| complexity(&s) > n
}

/// A warning, but an error above a complexity.
pub open spec fn error_above(n: int) -> spec_fn(Stmt) -> Severity {
    |s: Stmt|
        if complexity(&s) > n {
            Severity::Error
        } else {
            Severity::Warning
        }
}

pub open spec fn complexity_told() -> spec_fn(Stmt) -> Seq<char> {
    |s: Stmt| def_name(&s) + "() has complexity "@ + dec(complexity(&s) as nat) + " (max "@
}

/// The ordinary and the keyword-only parameters of a function, `*args` and `**kwargs`.
pub open spec fn counted_params(a: Arguments) -> nat {
    a.args@.len() + a.kwonlyargs@.len() + (match a.vararg {
        Some(_) => 1nat,
        None => 0nat,
    }) + (match a.kwarg {
        Some(_) => 1nat,
        None => 0nat,
    })
}

/// Functions with more than so many parameters.
pub open spec fn more_params(n: nat) -> spec_fn(Stmt) -> bool {
    |s: Stmt| counted_params(def_args(&s)) > n
}

pub open spec fn params_told() -> spec_fn(Stmt) -> Seq<char> {
    |s: Stmt| def_name(&s) + "() has "@ + dec(counted_params(def_args(&s))) + " params (max "@
}

/// Functions with more than so many `return` statements of their own.
pub open spec fn more_returns(n: nat) -> spec_fn(Stmt) -> bool {
    |s: Stmt| own_returns(&s) > n
}

pub open spec fn returns_told() -> spec_fn(Stmt) -> Seq<char> {
    |s: Stmt| def_name(&s) + "() has "@ + dec(own_returns(&s)) + " return statements (max "@
}

/// Functions whose blocks are nested deeper than a number.
pub open spec fn deeper(n: nat) -> spec_fn(Stmt) -> bool {
    |s: Stmt| nesting(&s) > n
}

pub open spec fn depth_told() -> spec_fn(Stmt) -> Seq<char> {
    |s: Stmt| def_name(&s) + "() has nesting depth "@ + dec(nesting(&s)) + " (max "@
}

/// Whether one of a list of parameters has a list, dictionary or set display as its default.
pub open spec fn one_defaults_to_a_display(params: Seq<ArgWithDefault>) -> bool {
    exists|i: int|
        0 <= i < params.len() && ((#[trigger] params[i]).default matches Some(e) && (*e is List
            || *e is Dict || *e is Set))
}

/// Functions with such a default among their parameters.
pub open spec fn has_display_default() -> spec_fn(Stmt) -> bool {
    |s: Stmt|
        one_defaults_to_a_display(def_args(&s).posonlyargs@) || one_defaults_to_a_display(
            def_args(&s).args@,
        ) || one_defaults_to_a_display(def_args(&s).kwonlyargs@)
}

pub open spec fn default_told() -> spec_fn(Stmt) -> Seq<char> {
    |s: Stmt| def_name(&s) + "() has mutable default argument — use None instead"@
}

/// Whether a parameter is `True` or `False` by default.
pub open spec fn is_switch() -> spec_fn(ArgWithDefault) -> bool {
    |a: ArgWithDefault|
        a.default matches Some(e) && *e matches Expr::Constant(c) && c.value is Bool
}

/// Functions with at least so many such parameters, ordinary or keyword-only.
pub open spec fn has_switches(n: nat) -> spec_fn(Stmt) -> bool {
    |s: Stmt|
        def_args(&s).args@.filter(is_switch()).len() + def_args(&s).kwonlyargs@.filter(
            is_switch(),
        ).len() >= n
}

pub open spec fn switches_told() -> spec_fn(Stmt) -> Seq<char> {
    |s: Stmt| def_name(&s) + "() has "@
}

proof fn lemma_switches(params: Seq<ArgWithDefault>)
    ensures
        params.flat_map(each_flag()).len() == params.filter(is_switch()).len(),
    decreases params.len(),
{
    reveal(Seq::filter);
    if params.len() == 0 {
        assert(params.flat_map(each_flag()) =~= seq![]);
    } else {
        let rest = params.drop_last();
        lemma_switches(rest);
        rest.lemma_flat_map_push(each_flag(), params.last());
        assert(params =~= rest.push(params.last()));
    }
}

proof fn lemma_display_defaults(params: Seq<ArgWithDefault>)
    ensures
        crate::checks::functions::any_mutable(params) == one_defaults_to_a_display(params),
{
    if crate::checks::functions::any_mutable(params) {
        let i = choose|i: int|
            0 <= i < params.len() && crate::checks::functions::defaults_to_mutable(
                &#[trigger] params[i],
            );
        assert(params[i].default is Some);
    }
    if one_defaults_to_a_display(params) {
        let i = choose|i: int|
            0 <= i < params.len() && ((#[trigger] params[i]).default matches Some(e) && (*e is List
                || *e is Dict || *e is Set));
        assert(crate::checks::functions::defaults_to_mutable(&params[i]));
    }
}

/// The functions of a file that have more than fifty lines are reported, and no others.
pub proof fn law_long_functions_are_reported(module: Mod, site: SiteView)
    ensures
        is_on_functions(
            long_functions(module, site),
            body_of(module),
            site,
            more_lines(site, 50),
            always(Severity::Warning),
            "long-function"@,
            lines_told(site),
        ),
{
    let f = each_long_function(site);
    assert forall|s: &Stmt| is_def(s) implies if more_lines(site, 50)(*s) {
        (#[trigger] f(s)).len() == 1 && is_at(
            f(s)[0],
            site,
            range_start(def_range(s)),
            always(Severity::Warning)(*s),
            "long-function"@,
            lines_told(site)(*s),
        )
    } else {
        f(s).len() == 0
    } by {
        if more_lines(site, 50)(*s) {
            let head = lines_told(site)(*s);
            assert(f(s)[0].message.take(head.len() as int) =~= head);
        }
    }
    assert(finds_function(f, site, more_lines(site, 50), always(Severity::Warning), "long-function"@, lines_told(site)));
    lemma_on_functions(
        body_of(module),
        f,
        site,
        more_lines(site, 50),
        always(Severity::Warning),
        "long-function"@,
        lines_told(site),
    );
}

/// The functions of a file with a complexity above ten are reported, and no others: those above fifteen as errors, the rest as warnings.
pub proof fn law_complex_functions_are_reported(module: Mod, site: SiteView)
    ensures
        is_on_functions(
            complex_functions(module, site),
            body_of(module),
            site,
            more_complex(10),
            error_above(15),
            "high-complexity"@,
            complexity_told(),
        ),
{
    let f = each_complex_function(site);
    assert forall|s: &Stmt| is_def(s) implies if more_complex(10)(*s) {
        (#[trigger] f(s)).len() == 1 && is_at(
            f(s)[0],
            site,
            range_start(def_range(s)),
            error_above(15)(*s),
            "high-complexity"@,
            complexity_told()(*s),
        )
    } else {
        f(s).len() == 0
    } by {
        if more_complex(10)(*s) {
            let head = complexity_told()(*s);
            assert(f(s)[0].message.take(head.len() as int) =~= head);
        }
    }
    assert(finds_function(f, site, more_complex(10), error_above(15), "high-complexity"@, complexity_told()));
    lemma_on_functions(
        body_of(module),
        f,
        site,
        more_complex(10),
        error_above(15),
        "high-complexity"@,
        complexity_told(),
    );
}

/// The functions of a file with more than six parameters are reported, and no others.
pub proof fn law_wide_functions_are_reported(module: Mod, site: SiteView)
    ensures
        is_on_functions(
            wide_functions(module, site),
            body_of(module),
            site,
            more_params(6),
            always(Severity::Warning),
            "too-many-params"@,
            params_told(),
        ),
{
    let f = each_wide_function(site);
    assert forall|s: &Stmt| is_def(s) implies if more_params(6)(*s) {
        (#[trigger] f(s)).len() == 1 && is_at(
            f(s)[0],
            site,
            range_start(def_range(s)),
            always(Severity::Warning)(*s),
            "too-many-params"@,
            params_told()(*s),
        )
    } else {
        f(s).len() == 0
    } by {
        if more_params(6)(*s) {
            let head = params_told()(*s);
            assert(f(s)[0].message.take(head.len() as int) =~= head);
        }
    }
    assert(finds_function(f, site, more_params(6), always(Severity::Warning), "too-many-params"@, params_told()));
    lemma_on_functions(
        body_of(module),
        f,
        site,
        more_params(6),
        always(Severity::Warning),
        "too-many-params"@,
        params_told(),
    );
}

/// The functions of a file with more than three `return` statements of their own are reported, and no others.
pub proof fn law_functions_of_many_returns_are_reported(module: Mod, site: SiteView)
    ensures
        is_on_functions(
            functions_with_many_returns(module, site),
            body_of(module),
            site,
            more_returns(3),
            always(Severity::Info),
            "excessive-returns"@,
            returns_told(),
        ),
{
    let f = each_many_returns(site);
    assert forall|s: &Stmt| is_def(s) implies if more_returns(3)(*s) {
        (#[trigger] f(s)).len() == 1 && is_at(
            f(s)[0],
            site,
            range_start(def_range(s)),
            always(Severity::Info)(*s),
            "excessive-returns"@,
            returns_told()(*s),
        )
    } else {
        f(s).len() == 0
    } by {
        if more_returns(3)(*s) {
            let head = returns_told()(*s);
            assert(f(s)[0].message.take(head.len() as int) =~= head);
        }
    }
    assert(finds_function(f, site, more_returns(3), always(Severity::Info), "excessive-returns"@, returns_told()));
    lemma_on_functions(
        body_of(module),
        f,
        site,
        more_returns(3),
        always(Severity::Info),
        "excessive-returns"@,
        returns_told(),
    );
}

/// The functions of a file whose blocks are nested more than five deep are reported, and no others.
pub proof fn law_nested_functions_are_reported(module: Mod, site: SiteView)
    ensures
        is_on_functions(
            nested_functions(module, site),
            body_of(module),
            site,
            deeper(5),
            always(Severity::Warning),
            "deep-nesting"@,
            depth_told(),
        ),
{
    let f = each_nested_function(site);
    assert forall|s: &Stmt| is_def(s) implies if deeper(5)(*s) {
        (#[trigger] f(s)).len() == 1 && is_at(
            f(s)[0],
            site,
            range_start(def_range(s)),
            always(Severity::Warning)(*s),
            "deep-nesting"@,
            depth_told()(*s),
        )
    } else {
        f(s).len() == 0
    } by {
        if deeper(5)(*s) {
            let head = depth_told()(*s);
            assert(f(s)[0].message.take(head.len() as int) =~= head);
        }
    }
    assert(finds_function(f, site, deeper(5), always(Severity::Warning), "deep-nesting"@, depth_told()));
    lemma_on_functions(
        body_of(module),
        f,
        site,
        deeper(5),
        always(Severity::Warning),
        "deep-nesting"@,
        depth_told(),
    );
}

/// The functions of a file with a list, dictionary or set display as the default of a parameter of any kind are reported, and no others.
pub proof fn law_mutable_defaults_are_reported(module: Mod, site: SiteView)
    ensures
        is_on_functions(
            mutable_defaults(module, site),
            body_of(module),
            site,
            has_display_default(),
            always(Severity::Warning),
            "mutable-default"@,
            default_told(),
        ),
{
    let f = each_mutable_default(site);
    assert forall|s: &Stmt| is_def(s) implies if has_display_default()(*s) {
        (#[trigger] f(s)).len() == 1 && is_at(
            f(s)[0],
            site,
            range_start(def_range(s)),
            always(Severity::Warning)(*s),
            "mutable-default"@,
            default_told()(*s),
        )
    } else {
        f(s).len() == 0
    } by {
        lemma_display_defaults(def_args(s).posonlyargs@);
        lemma_display_defaults(def_args(s).args@);
        lemma_display_defaults(def_args(s).kwonlyargs@);
        if has_display_default()(*s) {
            let head = default_told()(*s);
            assert(f(s)[0].message.take(head.len() as int) =~= head);
        }
    }
    assert(finds_function(f, site, has_display_default(), always(Severity::Warning), "mutable-default"@, default_told()));
    lemma_on_functions(
        body_of(module),
        f,
        site,
        has_display_default(),
        always(Severity::Warning),
        "mutable-default"@,
        default_told(),
    );
}

/// The functions of a file with at least three parameters that are `True` or `False` by default are reported, and no others.
pub proof fn law_flagged_functions_are_reported(module: Mod, site: SiteView)
    ensures
        is_on_functions(
            flagged_functions(module, site),
            body_of(module),
            site,
            has_switches(3),
            always(Severity::Info),
            "boolean-flag-params"@,
            switches_told(),
        ),
{
    let f = each_flagged_function(site);
    assert forall|s: &Stmt| is_def(s) implies if has_switches(3)(*s) {
        (#[trigger] f(s)).len() == 1 && is_at(
            f(s)[0],
            site,
            range_start(def_range(s)),
            always(Severity::Info)(*s),
            "boolean-flag-params"@,
            switches_told()(*s),
        )
    } else {
        f(s).len() == 0
    } by {
        lemma_switches(def_args(s).args@);
        lemma_switches(def_args(s).kwonlyargs@);
        if has_switches(3)(*s) {
            let head = switches_told()(*s);
            assert(f(s)[0].message.take(head.len() as int) =~= head);
        }
    }
    assert(finds_function(f, site, has_switches(3), always(Severity::Info), "boolean-flag-params"@, switches_told()));
    lemma_on_functions(
        body_of(module),
        f,
        site,
        has_switches(3),
        always(Severity::Info),
        "boolean-flag-params"@,
        switches_told(),
    );
}

/// A public function without a return annotation is reported unless it is `__init__`, and so
/// is each ordinary parameter of it without an annotation but for `self` and `cls`.
pub proof fn law_missing_annotations_are_reported(module: Mod, site: SiteView, s: &Stmt, i: int)
    requires
        stands_in(body_of(module), *s),
        s is FunctionDef || s is AsyncFunctionDef,
        !"_"@.is_prefix_of(def_name(s)),
    ensures
        def_returns(s) is None && def_name(s) != "__init__"@ ==> has_one_at(
            untyped_functions(module, site),
            site,
            range_start(def_range(s)),
            Severity::Warning,
            "missing-return-type"@,
            def_name(s) + "() missing return type annotation"@,
        ),
        0 <= i < def_args(s).args@.len() && def_args(s).args@[i].def.annotation is None
            && identifier_text(def_args(s).args@[i].def.arg) != "self"@ && identifier_text(
            def_args(s).args@[i].def.arg,
        ) != "cls"@ ==> has_one_at(
            untyped_functions(module, site),
            site,
            range_start(def_range(s)),
            Severity::Info,
            "missing-param-type"@,
            def_name(s) + "(): param '"@ + identifier_text(def_args(s).args@[i].def.arg)
                + "' missing type annotation"@,
        ),
{
    let r = untyped_functions(module, site);
    let all = functions(body_of(module));
    let f = each_untyped_function(site);
    law_functions_stand_in_the_body(body_of(module), s);
    let k = all.index_of(s);
    if def_returns(s) is None && def_name(s) != "__init__"@ {
        let x = f(s)[0];
        let head = def_name(s) + "() missing return type annotation"@;
        assert(f(all[k]).contains(x));
        lemma_flat_map_contains(all, f, x);
        let j = r.index_of(x);
        assert(x.message.take(head.len() as int) =~= head);
        assert(is_at(
            r[j],
            site,
            range_start(def_range(s)),
            Severity::Warning,
            "missing-return-type"@,
            head,
        ));
    }
    let params = def_args(s).args@;
    if 0 <= i < params.len() && params[i].def.annotation is None && identifier_text(
        params[i].def.arg,
    ) != "self"@ && identifier_text(params[i].def.arg) != "cls"@ {
        let g = each_untyped_param(site, s);
        let x = g(params[i])[0];
        assert(g(params[i]).contains(x));
        lemma_flat_map_contains(params, g, x);
        let first = crate::checks::functions::untyped_return(site, s);
        let rest = params.flat_map(g);
        let j0 = rest.index_of(x);
        assert(f(s) == first + rest);
        assert((first + rest)[first.len() + j0] == x);
        assert(f(all[k]).contains(x));
        lemma_flat_map_contains(all, f, x);
        let j = r.index_of(x);
        let head = def_name(s) + "(): param '"@ + identifier_text(params[i].def.arg)
            + "' missing type annotation"@;
        assert(x.message.take(head.len() as int) =~= head);
        assert(is_at(
            r[j],
            site,
            range_start(def_range(s)),
            Severity::Info,
            "missing-param-type"@,
            head,
        ));
    }
}

/// What is reported as lacking an annotation is a public function without a return
/// annotation, not `__init__`, or an ordinary parameter of a public function without one, not
/// `self` or `cls`.
pub proof fn law_reported_annotations_are_missing(module: Mod, site: SiteView, x: IssueView) -> (r:
    (Stmt, int))
    requires
        untyped_functions(module, site).contains(x),
    ensures
        stands_in(body_of(module), r.0),
        r.0 is FunctionDef || r.0 is AsyncFunctionDef,
        !"_"@.is_prefix_of(def_name(&r.0)),
        x.line == crate::ast_helpers::line_in(
            site.starts,
            range_start(def_range(&r.0)) as nat,
        ),
        (x.rule == "missing-return-type"@ && x.severity == Severity::Warning && def_returns(&r.0)
            is None && def_name(&r.0) != "__init__"@) || (x.rule == "missing-param-type"@
            && x.severity == Severity::Info && 0 <= r.1 < def_args(&r.0).args@.len() && def_args(
            &r.0,
        ).args@[r.1].def.annotation is None && identifier_text(def_args(&r.0).args@[r.1].def.arg)
            != "self"@ && identifier_text(def_args(&r.0).args@[r.1].def.arg) != "cls"@),
{
    let all = functions(body_of(module));
    let f = each_untyped_function(site);
    lemma_flat_map_contains(all, f, x);
    let k = choose|k: int| 0 <= k < all.len() && f(#[trigger] all[k]).contains(x);
    let s = all[k];
    assert(all.contains(s));
    law_functions_stand_in_the_body(body_of(module), s);
    let first = crate::checks::functions::untyped_return(site, s);
    let params = def_args(s).args@;
    let g = each_untyped_param(site, s);
    let rest = params.flat_map(g);
    assert(f(s) == first + rest);
    let j = f(s).index_of(x);
    if j < first.len() {
        (*s, 0)
    } else {
        assert(rest[j - first.len()] == x);
        assert(rest.contains(x));
        lemma_flat_map_contains(params, g, x);
        let i = choose|i: int| 0 <= i < params.len() && g(#[trigger] params[i]).contains(x);
        (*s, i)
    }
}

proof fn lemma_line_feeds(a: Seq<u8>, b: Seq<u8>)
    ensures
        line_feeds(a + b) == line_feeds(a) + line_feeds(b),
    decreases b.len(),
{
    if b.len() == 0 {
        assert(a + b =~= a);
    } else {
        assert((a + b).drop_last() =~= a + b.drop_last());
        lemma_line_feeds(a, b.drop_last());
    }
}

/// A function has one line more than there are line feeds between its first byte and its last.
pub proof fn law_function_lines_are_counted(
    source: Seq<char>,
    path: Seq<char>,
    package: Seq<char>,
    s: &Stmt,
)
    requires
        range_start(def_range(s)) <= range_end(def_range(s)) <= encode_utf8(source).len(),
    ensures
        function_lines(site_of(source, path, package), s) == 1 + line_feeds(
            encode_utf8(source).subrange(
                range_start(def_range(s)) as int,
                range_end(def_range(s)) as int,
            ),
        ),
{
    let bytes = encode_utf8(source);
    let start = range_start(def_range(s)) as int;
    let end = range_end(def_range(s)) as int;
    law_line_counts_line_feeds(bytes, start as nat);
    law_line_counts_line_feeds(bytes, end as nat);
    assert(bytes.take(bytes.len() as int) =~= bytes);
    lemma_line_feeds(bytes.take(start), bytes.subrange(start, end));
    assert(bytes.take(start) + bytes.subrange(start, end) =~= bytes.take(end));
}

} // verus!
