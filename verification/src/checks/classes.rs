//! Checks of classes and of what they expose.

use crate::ast_helpers::{class_name, is_def, meaningful, meaningful_stmts};
use crate::checks::common::{
    body_of, gather, module_body, none, on_visits, one, report, site_of, Site, SiteView,
};
use crate::config::{
    dunder, escalates, is_dunder, ESCALATION_DENOMINATOR, ESCALATION_NUMERATOR, MAX_CLASS_ATTRS,
    MAX_CLASS_METHODS, MAX_DECORATORS, MAX_INHERITANCE_DEPTH, MIN_CLASS_METHODS,
};
use crate::models::{issue_views, Issue, IssueView, Severity};
use crate::order::lemma_flat_map_contains;
use crate::syntax::{identifier_text, name_of, range_start, start_of};
use crate::text::{
    add_text, contains_text, count_text, dec, distinct_texts, ends_with, same, starts_with, texts,
    with_text,
};
use crate::walk::{
    expressions, outset, seen, statements, visits, visits_of, walk_stmt, walk_stmts, Node, Seen,
    Visit,
};
use rustpython_ast::{
    Constant, Expr, ExprAttribute, ExprCall, ExprContext, Identifier, Keyword, Mod, Stmt,
    StmtClassDef,
};
use vstd::prelude::*;
use vstd::string::*;

verus! {

// ── Decorators ──────────────────────────────────────────────────────────────

/// A definition with too many decorators.
pub open spec fn decorated(
    site: SiteView,
    kind: Seq<char>,
    name: Seq<char>,
    decorators: nat,
    start: u32,
) -> Seq<IssueView> {
    if decorators > MAX_DECORATORS {
        seq![
            report(
                site,
                start,
                Severity::Info,
                "excessive-decorators"@,
                kind + " '"@ + name + "' has "@ + dec(decorators) + " decorators (max "@ + dec(
                    MAX_DECORATORS as nat,
                ) + ") — consider a wrapper or composition"@,
            ),
        ]
    } else {
        seq![]
    }
}

/// A visited definition with too many decorators.
pub open spec fn decorated_definition(site: SiteView, v: Seen) -> Seq<IssueView> {
    match v.node {
        Node::Stmt(Stmt::FunctionDef(n)) => decorated(
            site,
            "function"@,
            identifier_text(n.name),
            n.decorator_list@.len(),
            range_start(n.range),
        ),
        Node::Stmt(Stmt::AsyncFunctionDef(n)) => decorated(
            site,
            "function"@,
            identifier_text(n.name),
            n.decorator_list@.len(),
            range_start(n.range),
        ),
        Node::Stmt(Stmt::ClassDef(n)) => decorated(
            site,
            "class"@,
            identifier_text(n.name),
            n.decorator_list@.len(),
            range_start(n.range),
        ),
        _ => seq![],
    }
}

fn check_decorators(site: &Site, kind: &str, name: &str, decorators: usize, start: u32) -> (r: Vec<
    Issue,
>)
    ensures
        issue_views(r@) == decorated(site@, kind@, name@, decorators as nat, start),
{
    if decorators > MAX_DECORATORS {
        let message = kind.to_owned().concat(" '").concat(name).concat("' has ").concat(
            count_text(decorators).as_str(),
        ).concat(" decorators (max ").concat(count_text(MAX_DECORATORS).as_str()).concat(
            ") — consider a wrapper or composition",
        );
        one(site.report(start, Severity::Info, "excessive-decorators", message))
    } else {
        none()
    }
}

fn decorated_definition_issues(site: &Site, v: &Visit) -> (r: Vec<Issue>)
    ensures
        issue_views(r@) == decorated_definition(site@, v@),
{
    if let Node::Stmt(s) = v.node {
        match s {
            Stmt::FunctionDef(n) => {
                return check_decorators(
                    site,
                    "function",
                    name_of(&n.name),
                    n.decorator_list.len(),
                    start_of(&n.range),
                );
            },
            Stmt::AsyncFunctionDef(n) => {
                return check_decorators(
                    site,
                    "function",
                    name_of(&n.name),
                    n.decorator_list.len(),
                    start_of(&n.range),
                );
            },
            Stmt::ClassDef(n) => {
                return check_decorators(
                    site,
                    "class",
                    name_of(&n.name),
                    n.decorator_list.len(),
                    start_of(&n.range),
                );
            },
            _ => {},
        }
    }
    none()
}

/// `decorated_definition` for one visit, as a relation.
pub open spec fn each_decorated_definition<'a>(site: SiteView) -> spec_fn(Seen<'a>) -> Seq<IssueView> {
    |v: Seen<'a>| decorated_definition(site, v)
}

/// The functions and classes of a file that have too many decorators.
pub open spec fn decorated_definitions(module: Mod, site: SiteView) -> Seq<IssueView> {
    walk_stmts(body_of(module), statements(), outset()).flat_map(each_decorated_definition(site))
}

/// The functions and classes of a file that have too many decorators.
pub fn check_excessive_decorators(module: &Mod, source: &str, filepath: &str, package: &str) -> (r: Vec<Issue>)
    ensures
        issue_views(r@) == decorated_definitions(*module, site_of(source@, filepath@, package@)),
{
    let site = Site::new(source, filepath, package);
    let check = |v: &Visit| -> (r: Vec<Issue>)
        ensures
            issue_views(r@) == decorated_definition(site@, v@),
        { decorated_definition_issues(&site, v) };
    on_visits(module, statements(), check, Ghost(each_decorated_definition(site@)))
}

// ── Bases and methods ───────────────────────────────────────────────────────

/// The name that a base class or a decorator ends in.
pub open spec fn end_name(e: &Expr) -> Option<Seq<char>> {
    match e {
        Expr::Name(n) => Some(identifier_text(n.id)),
        Expr::Attribute(a) => Some(identifier_text(a.attr)),
        _ => None,
    }
}

/// `end_name`, as a relation.
pub open spec fn each_end_name() -> spec_fn(Expr) -> Seq<Seq<char>> {
    |e: Expr|
        match end_name(&e) {
            Some(t) => seq![t],
            None => seq![],
        }
}

/// The names of the base classes of a class.
pub open spec fn base_texts(bases: Seq<Expr>) -> Seq<Seq<char>> {
    bases.flat_map(each_end_name())
}

fn end_name_of<'a>(e: &'a Expr) -> (r: Option<&'a str>)
    ensures
        match r {
            Some(t) => end_name(e) == Some(t@),
            None => end_name(e) is None,
        },
{
    match e {
        Expr::Name(n) => Some(name_of(&n.id)),
        Expr::Attribute(a) => Some(name_of(&a.attr)),
        _ => None,
    }
}

/// The names of the base classes of a class.
fn base_names(v: &Vec<Expr>) -> (r: Vec<String>)
    ensures
        texts(r@) == v@.flat_map(each_end_name()),
{
    let ghost f = each_end_name();
    let mut out: Vec<String> = Vec::new();
    let mut i: usize = 0;
    assert(texts(out@) =~= v@.take(0).flat_map(f));
    while i < v.len()
        invariant
            i <= v@.len(),
            f == each_end_name(),
            texts(out@) == v@.take(i as int).flat_map(f),
        decreases v@.len() - i,
    {
        let ghost before = texts(out@);
        proof {
            v@.lemma_flat_map_take_append(f, i as int);
        }
        match end_name_of(&v[i]) {
            Some(t) => {
                out.push(t.to_owned());
                assert(texts(out@) =~= before + seq![t@]);
            },
            None => {
                assert(before + seq![] =~= before);
            },
        }
        i += 1;
    }
    assert(v@.take(i as int) =~= v@);
    out
}

/// How many of the statements of a class are methods.
pub open spec fn method_count(body: Seq<Stmt>) -> nat
    decreases body.len(),
{
    if body.len() == 0 {
        0
    } else {
        method_count(body.drop_last()) + if is_def(&body.last()) {
            1nat
        } else {
            0nat
        }
    }
}

fn is_method(s: &Stmt) -> (r: bool)
    ensures
        r == is_def(s),
{
    match s {
        Stmt::FunctionDef(_) | Stmt::AsyncFunctionDef(_) => true,
        _ => false,
    }
}

fn count_methods(body: &Vec<Stmt>) -> (r: usize)
    ensures
        r == method_count(body@),
{
    let mut n: usize = 0;
    let mut i: usize = 0;
    while i < body.len()
        invariant
            i <= body@.len(),
            n <= i,
            n == method_count(body@.take(i as int)),
        decreases body@.len() - i,
    {
        assert(body@.take(i + 1).drop_last() =~= body@.take(i as int));
        assert(body@.take(i + 1).last() == body@[i as int]);
        if is_method(&body[i]) {
            n += 1;
        }
        i += 1;
    }
    assert(body@.take(i as int) =~= body@);
    n
}

// ── Lazy classes ────────────────────────────────────────────────────────────

/// Whether a base class makes a class a data container or an exception.
pub open spec fn is_exempt_base(name: Seq<char>) -> bool {
    ||| name == "BaseModel"@
    ||| name == "BaseSettings"@
    ||| name == "NamedTuple"@
    ||| "Error"@.is_suffix_of(name)
    ||| "Exception"@.is_suffix_of(name)
    ||| "Warning"@.is_suffix_of(name)
}

/// The name that a decorator resolves to, with or without arguments.
pub open spec fn decorator_name(dec: &Expr) -> Option<Seq<char>> {
    match dec {
        Expr::Call(c) => end_name(&*c.func),
        _ => end_name(dec),
    }
}

/// Whether a class is a data container or an exception already.
pub open spec fn is_exempt(n: &StmtClassDef) -> bool {
    ||| exists|i: int|
        0 <= i < base_texts(n.bases@).len() && is_exempt_base(#[trigger] base_texts(n.bases@)[i])
    ||| exists|i: int|
        0 <= i < n.decorator_list@.len() && decorator_name(&#[trigger] n.decorator_list@[i])
            == Some("dataclass"@)
}

/// A class with hardly a method.
pub open spec fn lazy_class(site: SiteView, v: Seen) -> Seq<IssueView> {
    match v.node {
        Node::Stmt(Stmt::ClassDef(n)) => {
            let methods = method_count(n.body@);
            if !is_exempt(n) && methods < MIN_CLASS_METHODS {
                seq![
                    report(
                        site,
                        range_start(n.range),
                        Severity::Info,
                        "lazy-class"@,
                        "class '"@ + identifier_text(n.name) + "' has "@ + dec(methods)
                            + " method(s) — consider a plain function or @dataclass"@,
                    ),
                ]
            } else {
                seq![]
            }
        },
        _ => seq![],
    }
}

/// The name that a decorator resolves to, e.g. `dataclass` for both `@dataclass` and
/// `@dataclass(frozen=True)`.
pub fn decorator_target_name<'a>(dec: &'a Expr) -> (r: Option<&'a str>)
    ensures
        match r {
            Some(t) => decorator_name(dec) == Some(t@),
            None => decorator_name(dec) is None,
        },
{
    match dec {
        Expr::Call(c) => end_name_of(&c.func),
        _ => end_name_of(dec),
    }
}

/// Whether a class is a data container or an exception already.
pub fn is_lazy_class_exempt(n: &StmtClassDef) -> (r: bool)
    ensures
        r == is_exempt(n),
{
    let bases = base_names(&n.bases);
    let ghost all = base_texts(n.bases@);
    let mut i: usize = 0;
    while i < bases.len()
        invariant
            i <= bases@.len(),
            texts(bases@) == all,
            all == base_texts(n.bases@),
            forall|j: int| 0 <= j < i ==> !is_exempt_base(#[trigger] all[j]),
        decreases bases@.len() - i,
    {
        let b = bases[i].as_str();
        assert(all[i as int] == b@);
        if same(b, "BaseModel") || same(b, "BaseSettings") || same(b, "NamedTuple") || ends_with(
            b,
            "Error",
        ) || ends_with(b, "Exception") || ends_with(b, "Warning") {
            return true;
        }
        i += 1;
    }
    assert(all.len() == bases@.len());
    let mut k: usize = 0;
    while k < n.decorator_list.len()
        invariant
            k <= n.decorator_list@.len(),
            forall|j: int| 0 <= j < all.len() ==> !is_exempt_base(#[trigger] all[j]),
            all == base_texts(n.bases@),
            forall|j: int|
                0 <= j < k ==> decorator_name(&#[trigger] n.decorator_list@[j]) != Some(
                    "dataclass"@,
                ),
        decreases n.decorator_list@.len() - k,
    {
        if let Some(name) = decorator_target_name(&n.decorator_list[k]) {
            if same(name, "dataclass") {
                assert(decorator_name(&n.decorator_list@[k as int]) == Some("dataclass"@));
                return true;
            }
        }
        k += 1;
    }
    false
}

fn lazy_class_issues(site: &Site, v: &Visit) -> (r: Vec<Issue>)
    ensures
        issue_views(r@) == lazy_class(site@, v@),
{
    if let Node::Stmt(s) = v.node {
        if let Stmt::ClassDef(n) = s {
            let methods: usize = count_methods(&n.body);
            if !is_lazy_class_exempt(n) && methods < MIN_CLASS_METHODS {
                let message = "class '".to_owned().concat(name_of(&n.name)).concat("' has ").concat(
                    count_text(methods).as_str(),
                ).concat(" method(s) — consider a plain function or @dataclass");
                return one(site.report(start_of(&n.range), Severity::Info, "lazy-class", message));
            }
        }
    }
    none()
}

/// `lazy_class` for one visit, as a relation.
pub open spec fn each_lazy_class<'a>(site: SiteView) -> spec_fn(Seen<'a>) -> Seq<IssueView> {
    |v: Seen<'a>| lazy_class(site, v)
}

/// The classes of a file that have hardly a method.
pub open spec fn lazy_classes(module: Mod, site: SiteView) -> Seq<IssueView> {
    walk_stmts(body_of(module), statements(), outset()).flat_map(each_lazy_class(site))
}

/// The classes of a file that have hardly a method.
pub fn check_lazy_class(module: &Mod, source: &str, filepath: &str, package: &str) -> (r: Vec<Issue>)
    ensures
        issue_views(r@) == lazy_classes(*module, site_of(source@, filepath@, package@)),
{
    let site = Site::new(source, filepath, package);
    let check = |v: &Visit| -> (r: Vec<Issue>)
        ensures
            issue_views(r@) == lazy_class(site@, v@),
        { lazy_class_issues(&site, v) };
    on_visits(module, statements(), check, Ghost(each_lazy_class(site@)))
}

// ── God classes ─────────────────────────────────────────────────────────────

/// Whether an expression is the given name.
pub open spec fn is_the_name(e: &Expr, name: Seq<char>) -> bool {
    e matches Expr::Name(n) && identifier_text(n.id) == name
}

fn is_name_expr(e: &Expr, name: &str) -> (r: bool)
    ensures
        r == is_the_name(e, name@),
{
    match e {
        Expr::Name(n) => same(name_of(&n.id), name),
        _ => false,
    }
}

/// The attribute of `self` that a visit assigns to.
pub open spec fn assigned_attr(v: Seen) -> Seq<Seq<char>> {
    match v.node {
        Node::Expr(Expr::Attribute(a)) => if a.ctx is Store && is_the_name(&*a.value, "self"@) {
            seq![identifier_text(a.attr)]
        } else {
            seq![]
        },
        _ => seq![],
    }
}

/// `assigned_attr`, as a relation.
pub open spec fn each_assigned_attr<'a>() -> spec_fn(Seen<'a>) -> Seq<Seq<char>> {
    |v: Seen<'a>| assigned_attr(v)
}

/// The attributes of `self` that a method assigns to, one by one.
pub open spec fn method_attrs() -> spec_fn(Stmt) -> Seq<Seq<char>> {
    |s: Stmt|
        if is_def(&s) {
            walk_stmt(&s, expressions(), outset()).flat_map(each_assigned_attr())
        } else {
            seq![]
        }
}

/// The attributes of `self` that the methods of a class assign to, each once.
pub open spec fn class_attrs(body: Seq<Stmt>) -> Seq<Seq<char>> {
    distinct_texts(body.flat_map(method_attrs()))
}

/// A class with too many methods or attributes.
pub open spec fn god_class(site: SiteView, v: Seen) -> Seq<IssueView> {
    match v.node {
        Node::Stmt(Stmt::ClassDef(n)) => {
            let methods = method_count(n.body@);
            let attrs = class_attrs(n.body@).len();
            if methods >= MAX_CLASS_METHODS || attrs > MAX_CLASS_ATTRS {
                seq![
                    report(
                        site,
                        range_start(n.range),
                        if escalates(methods as int, MAX_CLASS_METHODS as int) || escalates(
                            attrs as int,
                            MAX_CLASS_ATTRS as int,
                        ) {
                            Severity::Error
                        } else {
                            Severity::Warning
                        },
                        "god-class"@,
                        "class "@ + identifier_text(n.name) + " has "@ + dec(methods)
                            + " methods and "@ + dec(attrs) + " attributes (max "@ + dec(
                            MAX_CLASS_METHODS as nat,
                        ) + "/"@ + dec(MAX_CLASS_ATTRS as nat)
                            + ") — consider splitting responsibilities"@,
                    ),
                ]
            } else {
                seq![]
            }
        },
        _ => seq![],
    }
}

proof fn lemma_distinct_append(s: Seq<Seq<char>>, x: Seq<char>)
    ensures
        distinct_texts(s + seq![x]) == with_text(distinct_texts(s), x),
{
    assert((s + seq![x]).drop_last() =~= s);
}

fn collect_method_attrs(
    method: &Stmt,
    attrs: &mut Vec<String>,
    Ghost(earlier): Ghost<Seq<Seq<char>>>,
)
    requires
        texts(old(attrs)@) == distinct_texts(earlier),
        is_def(method),
    ensures
        texts(final(attrs)@) == distinct_texts(earlier + method_attrs()(*method)),
{
    let all = visits_of(method, expressions());
    let ghost w = walk_stmt(method, expressions(), outset());
    let ghost f = each_assigned_attr();
    let mut i: usize = 0;
    assert(earlier + w.take(0).flat_map(f) =~= earlier);
    while i < all.len()
        invariant
            i <= all@.len(),
            w == seen(all@),
            f == each_assigned_attr(),
            texts(attrs@) == distinct_texts(earlier + w.take(i as int).flat_map(f)),
        decreases all@.len() - i,
    {
        let ghost so_far = earlier + w.take(i as int).flat_map(f);
        proof {
            w.lemma_flat_map_take_append(f, i as int);
            assert(w[i as int] == all@[i as int]@);
            assert(earlier + w.take(i + 1).flat_map(f) =~= so_far + f(w[i as int]));
            assert(so_far + seq![] =~= so_far);
        }
        if let Node::Expr(e) = all[i].node {
            if let Expr::Attribute(a) = e {
                let stores: bool = match a.ctx {
                    ExprContext::Store => true,
                    _ => false,
                };
                if stores && is_name_expr(&a.value, "self") {
                    let name = name_of(&a.attr);
                    proof {
                        lemma_distinct_append(so_far, name@);
                    }
                    add_text(attrs, name);
                }
            }
        }
        i += 1;
    }
    assert(w.take(i as int) =~= w);
}

fn count_attrs(body: &Vec<Stmt>) -> (r: usize)
    ensures
        r == class_attrs(body@).len(),
{
    let ghost f = method_attrs();
    let mut attrs: Vec<String> = Vec::new();
    let mut i: usize = 0;
    assert(body@.take(0).flat_map(f) =~= seq![]);
    assert(texts(attrs@) =~= distinct_texts(body@.take(0).flat_map(f)));
    while i < body.len()
        invariant
            i <= body@.len(),
            f == method_attrs(),
            texts(attrs@) == distinct_texts(body@.take(i as int).flat_map(f)),
        decreases body@.len() - i,
    {
        let ghost so_far = body@.take(i as int).flat_map(f);
        proof {
            body@.lemma_flat_map_take_append(f, i as int);
            assert(so_far + seq![] =~= so_far);
        }
        if is_method(&body[i]) {
            collect_method_attrs(&body[i], &mut attrs, Ghost(so_far));
        }
        i += 1;
    }
    assert(body@.take(i as int) =~= body@);
    assert(texts(attrs@).len() == attrs@.len());
    attrs.len()
}

fn god_class_issues(site: &Site, v: &Visit) -> (r: Vec<Issue>)
    ensures
        issue_views(r@) == god_class(site@, v@),
{
    if let Node::Stmt(s) = v.node {
        if let Stmt::ClassDef(n) = s {
            let methods: usize = count_methods(&n.body);
            let attrs: usize = count_attrs(&n.body);
            if methods >= MAX_CLASS_METHODS || attrs > MAX_CLASS_ATTRS {
                let severity = if ESCALATION_DENOMINATOR as u128 * methods as u128
                    > ESCALATION_NUMERATOR as u128 * MAX_CLASS_METHODS as u128
                    || ESCALATION_DENOMINATOR as u128 * attrs as u128 > ESCALATION_NUMERATOR as u128
                    * MAX_CLASS_ATTRS as u128 {
                    Severity::Error
                } else {
                    Severity::Warning
                };
                let message = "class ".to_owned().concat(name_of(&n.name)).concat(" has ").concat(
                    count_text(methods).as_str(),
                ).concat(" methods and ").concat(count_text(attrs).as_str()).concat(
                    " attributes (max ",
                ).concat(count_text(MAX_CLASS_METHODS).as_str()).concat("/").concat(
                    count_text(MAX_CLASS_ATTRS).as_str(),
                ).concat(") — consider splitting responsibilities");
                return one(site.report(start_of(&n.range), severity, "god-class", message));
            }
        }
    }
    none()
}

/// `god_class` for one visit, as a relation.
pub open spec fn each_god_class<'a>(site: SiteView) -> spec_fn(Seen<'a>) -> Seq<IssueView> {
    |v: Seen<'a>| god_class(site, v)
}

/// The classes of a file that have too many methods or attributes.
pub open spec fn god_classes(module: Mod, site: SiteView) -> Seq<IssueView> {
    walk_stmts(body_of(module), statements(), outset()).flat_map(each_god_class(site))
}

/// The classes of a file that have too many methods or attributes.
pub fn check_god_class(module: &Mod, source: &str, filepath: &str, package: &str) -> (r: Vec<Issue>)
    ensures
        issue_views(r@) == god_classes(*module, site_of(source@, filepath@, package@)),
{
    let site = Site::new(source, filepath, package);
    let check = |v: &Visit| -> (r: Vec<Issue>)
        ensures
            issue_views(r@) == god_class(site@, v@),
        { god_class_issues(&site, v) };
    on_visits(module, statements(), check, Ghost(each_god_class(site@)))
}

// ── Inheritance ─────────────────────────────────────────────────────────────

/// The class that a visit found, if it found one.
pub open spec fn found_class<'a>() -> spec_fn(Seen<'a>) -> Seq<&'a StmtClassDef> {
    |v: Seen<'a>|
        match v.node {
            Node::Stmt(Stmt::ClassDef(n)) => seq![n],
            _ => seq![],
        }
}

/// The classes in a list of statements, at any nesting level, each before those inside
/// it.
pub open spec fn classes_in<'a>(body: Seq<Stmt>) -> Seq<&'a StmtClassDef> {
    walk_stmts(body, statements(), outset()).flat_map(found_class())
}

/// The base names of a class, if it has a given name.
pub open spec fn bases_if_named<'a>(name: Seq<char>) -> spec_fn(&'a StmtClassDef) -> Seq<Seq<char>> {
    |c: &'a StmtClassDef|
        if identifier_text(c.name) == name {
            base_texts(c.bases@)
        } else {
            seq![]
        }
}

/// The base names of the classes of a file that have a given name.
pub open spec fn bases_of(classes: Seq<&StmtClassDef>, name: Seq<char>) -> Seq<Seq<char>> {
    classes.flat_map(bases_if_named(name))
}

/// Whether `chain` leads upward from one of `bases`, each name being a base of the
/// one before it, and never through `own`.
pub open spec fn is_chain(
    classes: Seq<&StmtClassDef>,
    own: Seq<char>,
    bases: Seq<Seq<char>>,
    chain: Seq<Seq<char>>,
) -> bool {
    &&& chain.len() > 0
    &&& bases.contains(chain[0])
    &&& forall|i: int| 0 <= i < chain.len() ==> #[trigger] chain[i] != own
    &&& forall|i: int|
        0 <= i < chain.len() - 1 ==> bases_of(classes, #[trigger] chain[i]).contains(chain[i + 1])
}

/// Whether a name is that of an ancestor of a class called `own` with the base names
/// `bases`, as far as the file's own classes show.
pub open spec fn is_ancestor(
    classes: Seq<&StmtClassDef>,
    own: Seq<char>,
    bases: Seq<Seq<char>>,
    name: Seq<char>,
) -> bool {
    exists|chain: Seq<Seq<char>>| #[trigger]
        is_chain(classes, own, bases, chain) && chain.last() == name
}

/// The ancestors of a class, by name.
pub open spec fn ancestors(
    classes: Seq<&StmtClassDef>,
    own: Seq<char>,
    bases: Seq<Seq<char>>,
) -> Set<Seq<char>> {
    Set::new(|name: Seq<char>| is_ancestor(classes, own, bases, name))
}

/// A class with too many ancestors.
pub open spec fn deep_class(site: SiteView, classes: Seq<&StmtClassDef>, n: &StmtClassDef) -> Seq<
    IssueView,
> {
    let depth = ancestors(classes, identifier_text(n.name), base_texts(n.bases@)).len();
    if n.bases@.len() > 0 && depth > MAX_INHERITANCE_DEPTH {
        seq![
            report(
                site,
                range_start(n.range),
                Severity::Warning,
                "deep-inheritance"@,
                "class '"@ + identifier_text(n.name) + "' has effective inheritance depth "@ + dec(
                    depth,
                ) + " (max "@ + dec(MAX_INHERITANCE_DEPTH as nat)
                    + ") — use composition, e.g. the Strategy pattern, instead of another inheritance level"@,
            ),
        ]
    } else {
        seq![]
    }
}

/// `deep_class`, as a relation.
pub open spec fn each_deep_class<'a>(site: SiteView, classes: Seq<&'a StmtClassDef>) -> spec_fn(
    &'a StmtClassDef,
) -> Seq<IssueView> {
    |n: &'a StmtClassDef| deep_class(site, classes, n)
}

/// The classes of a file that have too many ancestors.
pub open spec fn deep_classes(module: Mod, site: SiteView) -> Seq<IssueView> {
    let classes = classes_in(body_of(module));
    classes.flat_map(each_deep_class(site, classes))
}

/// The classes in a list of statements, at any nesting level.
pub fn collect_all_classes<'a>(body: &'a [Stmt]) -> (r: Vec<&'a StmtClassDef>)
    ensures
        r@ == classes_in(body@),
{
    let all = visits(body, statements());
    let ghost w = seen(all@);
    let ghost f = found_class();
    let mut out: Vec<&'a StmtClassDef> = Vec::new();
    let mut i: usize = 0;
    assert(out@ =~= w.take(0).flat_map(f));
    while i < all.len()
        invariant
            i <= all@.len(),
            w == seen(all@),
            f == found_class(),
            out@ == w.take(i as int).flat_map(f),
        decreases all@.len() - i,
    {
        let ghost before = out@;
        proof {
            w.lemma_flat_map_take_append(f, i as int);
            assert(w[i as int] == all@[i as int]@);
            assert(before + seq![] =~= before);
        }
        if let Node::Stmt(Stmt::ClassDef(n)) = all[i].node {
            out.push(n);
            assert(out@ =~= before + seq![n]);
        }
        i += 1;
    }
    assert(w.take(i as int) =~= w);
    out
}

fn bases_named(classes: &Vec<&StmtClassDef>, name: &str) -> (r: Vec<String>)
    ensures
        texts(r@) == bases_of(classes@, name@),
{
    let ghost f = bases_if_named(name@);
    let mut out: Vec<String> = Vec::new();
    let mut i: usize = 0;
    assert(texts(out@) =~= classes@.take(0).flat_map(f));
    while i < classes.len()
        invariant
            i <= classes@.len(),
            f == bases_if_named(name@),
            texts(out@) == classes@.take(i as int).flat_map(f),
        decreases classes@.len() - i,
    {
        let ghost before = texts(out@);
        proof {
            classes@.lemma_flat_map_take_append(f, i as int);
            assert(before + seq![] =~= before);
        }
        if same(name_of(&classes[i].name), name) {
            let mut more = base_names(&classes[i].bases);
            let ghost named = texts(more@);
            out.append(&mut more);
            assert(texts(out@) =~= before + named);
        }
        i += 1;
    }
    assert(classes@.take(i as int) =~= classes@);
    out
}

/// Every base name in a file.
spec fn every_base(classes: Seq<&StmtClassDef>) -> Seq<Seq<char>> {
    classes.flat_map(|c: &StmtClassDef| base_texts(c.bases@))
}

proof fn lemma_bases_are_bases(classes: Seq<&StmtClassDef>, name: Seq<char>, x: Seq<char>)
    requires
        bases_of(classes, name).contains(x),
    ensures
        every_base(classes).contains(x),
{
    let f = bases_if_named(name);
    let g = |c: &StmtClassDef| base_texts(c.bases@);
    lemma_flat_map_contains(classes, f, x);
    let i = choose|i: int| 0 <= i < classes.len() && f(#[trigger] classes[i]).contains(x);
    assert(g(classes[i]).contains(x));
    lemma_flat_map_contains(classes, g, x);
}

/// A list without duplicates is no longer than a list that holds all it holds.
proof fn lemma_no_longer(a: Seq<Seq<char>>, b: Seq<Seq<char>>)
    requires
        a.no_duplicates(),
        forall|x: Seq<char>| a.contains(x) ==> b.contains(x),
    ensures
        a.len() <= b.len(),
{
    a.unique_seq_to_set();
    b.lemma_cardinality_of_set();
    vstd::seq_lib::seq_to_set_is_finite(b);
    assert(a.to_set().subset_of(b.to_set())) by {
        assert forall|x: Seq<char>| a.to_set().contains(x) implies b.to_set().contains(x) by {
            assert(a.contains(x));
        }
    }
    vstd::set_lib::lemma_len_subset(a.to_set(), b.to_set());
}

proof fn lemma_chain_grows(
    classes: Seq<&StmtClassDef>,
    own: Seq<char>,
    bases: Seq<Seq<char>>,
    name: Seq<char>,
    above: Seq<char>,
)
    requires
        is_ancestor(classes, own, bases, name),
        bases_of(classes, name).contains(above),
        above != own,
    ensures
        is_ancestor(classes, own, bases, above),
{
    let chain = choose|chain: Seq<Seq<char>>| #[trigger]
        is_chain(classes, own, bases, chain) && chain.last() == name;
    let longer = chain.push(above);
    assert(is_chain(classes, own, bases, longer)) by {
        assert forall|i: int| 0 <= i < longer.len() - 1 implies bases_of(
            classes,
            #[trigger] longer[i],
        ).contains(longer[i + 1]) by {
            if i < chain.len() - 1 {
                assert(bases_of(classes, chain[i]).contains(chain[i + 1]));
            }
        }
    }
    assert(longer.last() == above);
}

/// A list that holds the bases and the bases of all it holds, but for `own`, holds
/// every ancestor.
proof fn lemma_closed_holds_ancestors(
    classes: Seq<&StmtClassDef>,
    own: Seq<char>,
    bases: Seq<Seq<char>>,
    found: Seq<Seq<char>>,
    chain: Seq<Seq<char>>,
)
    requires
        forall|x: Seq<char>| #[trigger] bases.contains(x) ==> x == own || found.contains(x),
        forall|y: Seq<char>, x: Seq<char>|
            found.contains(y) && #[trigger] bases_of(classes, y).contains(x) ==> x == own
                || found.contains(x),
        is_chain(classes, own, bases, chain),
    ensures
        found.contains(chain.last()),
    decreases chain.len(),
{
    if chain.len() == 1 {
        assert(bases.contains(chain[0]));
    } else {
        let shorter = chain.drop_last();
        assert(is_chain(classes, own, bases, shorter)) by {
            assert forall|i: int| 0 <= i < shorter.len() - 1 implies bases_of(
                classes,
                #[trigger] shorter[i],
            ).contains(shorter[i + 1]) by {
                assert(bases_of(classes, chain[i]).contains(chain[i + 1]));
            }
        }
        lemma_closed_holds_ancestors(classes, own, bases, found, shorter);
        let k = chain.len() - 2;
        assert(bases_of(classes, chain[k]).contains(chain[k + 1]));
        assert(shorter.last() == chain[k]);
    }
}

/// The names of a class's ancestors, each once.
pub fn collect_ancestors(classes: &Vec<&StmtClassDef>, own: &str, bases: &Vec<Expr>) -> (r: Vec<
    String,
>)
    ensures
        texts(r@).no_duplicates(),
        forall|x: Seq<char>|
            texts(r@).contains(x) <==> is_ancestor(classes@, own@, base_texts(bases@), x),
{
    let mut queue = base_names(bases);
    let ghost start = base_texts(bases@);
    let ghost universe = start + every_base(classes@);
    let mut found: Vec<String> = Vec::new();
    let mut head: usize = 0;
    proof {
        assert forall|x: Seq<char>| texts(queue@).contains(x) && x != own@ implies is_ancestor(
            classes@,
            own@,
            start,
            x,
        ) by {
            assert(is_chain(classes@, own@, start, seq![x]));
            assert(seq![x].last() == x);
        }
        assert forall|x: Seq<char>| texts(queue@).contains(x) implies universe.contains(x) by {
            vstd::seq_lib::lemma_seq_concat_contains_all_elements(start, every_base(classes@), x);
        }
    }
    while head < queue.len()
        invariant
            head <= queue@.len(),
            universe == start + every_base(classes@),
            texts(found@).no_duplicates(),
            forall|x: Seq<char>| #[trigger]
                texts(found@).contains(x) ==> is_ancestor(classes@, own@, start, x),
            forall|x: Seq<char>| #[trigger] texts(found@).contains(x) ==> universe.contains(x),
            forall|x: Seq<char>| #[trigger]
                texts(queue@).contains(x) && x != own@ ==> is_ancestor(classes@, own@, start, x),
            forall|x: Seq<char>| #[trigger] texts(queue@).contains(x) ==> universe.contains(x),
            forall|x: Seq<char>| #[trigger] start.contains(x) ==> texts(queue@).contains(x),
            forall|y: Seq<char>, x: Seq<char>|
                texts(found@).contains(y) && #[trigger] bases_of(classes@, y).contains(x)
                    ==> texts(queue@).contains(x),
            forall|i: int|
                0 <= i < head ==> #[trigger] texts(queue@)[i] == own@ || texts(found@).contains(
                    texts(queue@)[i],
                ),
        decreases universe.len() - found@.len(), queue@.len() - head,
    {
        let name = queue[head].clone();
        let ghost before = texts(queue@);
        let ghost found_before = texts(found@);
        assert(before[head as int] == name@);
        assert(before.contains(name@));
        head += 1;
        if !same(name.as_str(), own) && !contains_text(&found, name.as_str()) {
            let mut more = bases_named(classes, name.as_str());
            let ghost above = texts(more@);
            found.push(name);
            queue.append(&mut more);
            proof {
                assert(texts(found@) =~= found_before.push(name@));
                assert(texts(queue@) =~= before + above);
                assert forall|x: Seq<char>| #[trigger] texts(queue@).contains(x) <==> before.contains(
                    x,
                ) || above.contains(x) by {
                    vstd::seq_lib::lemma_seq_concat_contains_all_elements(before, above, x);
                }
                assert forall|x: Seq<char>| #[trigger] texts(found@).contains(x)
                    <==> found_before.contains(x) || x == name@ by {
                    vstd::seq_lib::lemma_seq_contains_after_push(found_before, name@, x);
                }
                assert forall|x: Seq<char>| #[trigger]
                    texts(queue@).contains(x) && x != own@ implies is_ancestor(
                    classes@,
                    own@,
                    start,
                    x,
                ) by {
                    if above.contains(x) {
                        lemma_chain_grows(classes@, own@, start, name@, x);
                    }
                }
                assert forall|x: Seq<char>| #[trigger] texts(queue@).contains(x) implies universe.contains(
                    x,
                ) by {
                    if above.contains(x) {
                        lemma_bases_are_bases(classes@, name@, x);
                        vstd::seq_lib::lemma_seq_concat_contains_all_elements(
                            start,
                            every_base(classes@),
                            x,
                        );
                    }
                }
                assert forall|i: int| 0 <= i < head implies #[trigger] texts(queue@)[i] == own@
                    || texts(found@).contains(texts(queue@)[i]) by {
                    assert(texts(queue@)[i] == before[i]);
                }
                lemma_no_longer(texts(found@), universe);
            }
        } else {
            assert forall|i: int| 0 <= i < head implies #[trigger] texts(queue@)[i] == own@
                || texts(found@).contains(texts(queue@)[i]) by {
                assert(texts(queue@)[i] == before[i]);
            }
            proof {
                lemma_no_longer(texts(found@), universe);
            }
        }
    }
    proof {
        assert forall|x: Seq<char>| texts(queue@).contains(x) implies x == own@ || texts(
            found@,
        ).contains(x) by {
            let i = choose|i: int| 0 <= i < texts(queue@).len() && texts(queue@)[i] == x;
            assert(texts(queue@)[i] == x);
        }
        assert forall|x: Seq<char>| is_ancestor(classes@, own@, start, x) implies texts(
            found@,
        ).contains(x) by {
            let chain = choose|chain: Seq<Seq<char>>| #[trigger]
                is_chain(classes@, own@, start, chain) && chain.last() == x;
            lemma_closed_holds_ancestors(classes@, own@, start, texts(found@), chain);
        }
    }
    found
}

fn deep_class_issues(site: &Site, classes: &Vec<&StmtClassDef>, n: &StmtClassDef) -> (r: Vec<Issue>)
    ensures
        issue_views(r@) == deep_class(site@, classes@, n),
{
    let own = name_of(&n.name);
    let found = collect_ancestors(classes, own, &n.bases);
    let depth: usize = found.len();
    proof {
        let all = ancestors(classes@, own@, base_texts(n.bases@));
        texts(found@).unique_seq_to_set();
        assert(texts(found@).to_set() =~= all);
        assert(texts(found@).len() == depth);
    }
    if n.bases.len() > 0 && depth > MAX_INHERITANCE_DEPTH {
        let message = "class '".to_owned().concat(own).concat(
            "' has effective inheritance depth ",
        ).concat(count_text(depth).as_str()).concat(" (max ").concat(
            count_text(MAX_INHERITANCE_DEPTH).as_str(),
        ).concat(
            ") — use composition, e.g. the Strategy pattern, instead of another inheritance level",
        );
        one(site.report(start_of(&n.range), Severity::Warning, "deep-inheritance", message))
    } else {
        none()
    }
}

/// The classes of a file that have too many ancestors.
pub fn check_deep_inheritance(module: &Mod, source: &str, filepath: &str, package: &str) -> (r: Vec<
    Issue,
>)
    ensures
        issue_views(r@) == deep_classes(*module, site_of(source@, filepath@, package@)),
{
    let site = Site::new(source, filepath, package);
    let classes = collect_all_classes(module_body(module));
    let ghost view = |n: &StmtClassDef| n;
    assert(classes@.map_values(view) =~= classes@);
    let check = |n: &&StmtClassDef| -> (r: Vec<Issue>)
        ensures
            issue_views(r@) == deep_class(site@, classes@, *n),
        { deep_class_issues(&site, &classes, n) };
    gather::<&StmtClassDef, &StmtClassDef, _>(
        &classes,
        check,
        Ghost(view),
        Ghost(each_deep_class(site@, classes@)),
    )
}

// ── Encapsulation ───────────────────────────────────────────────────────────

/// Whether a private member may be reached through an expression: `self`, `cls`, the
/// class around, or `super()`.
pub open spec fn may_reach(base: &Expr, class: Option<Seq<char>>) -> bool {
    match base {
        Expr::Name(n) => {
            let id = identifier_text(n.id);
            id == "self"@ || id == "cls"@ || Some(id) == class
        },
        Expr::Call(c) => is_the_name(&*c.func, "super"@),
        _ => false,
    }
}

/// Whether a name is private: it begins with an underscore and is no special name.
pub open spec fn is_hidden(name: Seq<char>) -> bool {
    "_"@.is_prefix_of(name) && !dunder(name)
}

/// The private member that is read as `obj._attr`.
pub open spec fn private_read(n: &ExprAttribute, class: Option<Seq<char>>) -> Option<Seq<char>> {
    let attr = identifier_text(n.attr);
    if n.ctx is Load && is_hidden(attr) && !may_reach(&*n.value, class) {
        Some(attr)
    } else {
        None
    }
}

/// How many arguments a reflective access has at least: the object and the name.
pub const MIN_REFLECTIVE_ACCESS_ARGS: usize = 2;

/// Whether a function reaches an attribute by its name.
pub open spec fn is_reflective(name: Seq<char>) -> bool {
    name == "getattr"@ || name == "setattr"@ || name == "hasattr"@
}

/// The function and the private member that it reaches, as in
/// `getattr(obj, "_attr")`.
pub open spec fn reflective_access(n: &ExprCall, class: Option<Seq<char>>) -> Option<
    (Seq<char>, Seq<char>),
> {
    match *n.func {
        Expr::Name(f) => if is_reflective(identifier_text(f.id)) && n.args@.len()
            >= MIN_REFLECTIVE_ACCESS_ARGS {
            match n.args@[1] {
                Expr::Constant(c) => match c.value {
                    Constant::Str(attr) => if is_hidden(attr@) && !may_reach(&n.args@[0], class) {
                        Some((identifier_text(f.id), attr@))
                    } else {
                        None
                    },
                    _ => None,
                },
                _ => None,
            }
        } else {
            None
        },
        _ => None,
    }
}

/// An access to a private member from outside.
pub open spec fn private_access(site: SiteView, v: Seen) -> Seq<IssueView> {
    match v.node {
        Node::Expr(Expr::Attribute(n)) => match private_read(n, class_name(v.class)) {
            Some(attr) => seq![
                report(
                    site,
                    range_start(n.range),
                    Severity::Info,
                    "encapsulation-violation"@,
                    "Accesses private member '."@ + attr
                        + "' through something other than self/cls"@,
                ),
            ],
            None => seq![],
        },
        Node::Expr(Expr::Call(n)) => match reflective_access(n, class_name(v.class)) {
            Some(access) => seq![
                report(
                    site,
                    range_start(n.range),
                    Severity::Info,
                    "encapsulation-violation"@,
                    access.0 + "(..., '"@ + access.1
                        + "', ...) reaches into a private attribute"@,
                ),
            ],
            None => seq![],
        },
        _ => seq![],
    }
}

fn is_allowed_base(base: &Expr, class: Option<&Identifier>) -> (r: bool)
    ensures
        r == may_reach(base, class_name(class)),
{
    match base {
        Expr::Name(n) => {
            let id = name_of(&n.id);
            if same(id, "self") || same(id, "cls") {
                return true;
            }
            match class {
                Some(name) => same(id, name_of(name)),
                None => false,
            }
        },
        Expr::Call(c) => is_name_expr(&c.func, "super"),
        _ => false,
    }
}

fn is_private_name(name: &str) -> (r: bool)
    ensures
        r == is_hidden(name@),
{
    starts_with(name, "_") && !is_dunder(name)
}

fn direct_private_access<'a>(n: &'a ExprAttribute, class: Option<&Identifier>) -> (r: Option<
    &'a str,
>)
    ensures
        match r {
            Some(t) => private_read(n, class_name(class)) == Some(t@),
            None => private_read(n, class_name(class)) is None,
        },
{
    let loads: bool = match n.ctx {
        ExprContext::Load => true,
        _ => false,
    };
    if !loads {
        return None;
    }
    let attr = name_of(&n.attr);
    if !is_private_name(attr) || is_allowed_base(&n.value, class) {
        return None;
    }
    Some(attr)
}

fn reflective_private_access<'a>(n: &'a ExprCall, class: Option<&Identifier>) -> (r: Option<
    (&'a str, &'a str),
>)
    ensures
        match r {
            Some(t) => reflective_access(n, class_name(class)) == Some((t.0@, t.1@)),
            None => reflective_access(n, class_name(class)) is None,
        },
{
    if let Expr::Name(f) = &*n.func {
        let fname = name_of(&f.id);
        if (same(fname, "getattr") || same(fname, "setattr") || same(fname, "hasattr"))
            && n.args.len() >= MIN_REFLECTIVE_ACCESS_ARGS {
            if let Expr::Constant(c) = &n.args[1] {
                if let Constant::Str(attr) = &c.value {
                    if is_private_name(attr.as_str()) && !is_allowed_base(&n.args[0], class) {
                        return Some((fname, attr.as_str()));
                    }
                }
            }
        }
    }
    None
}

fn private_access_issues(site: &Site, v: &Visit) -> (r: Vec<Issue>)
    ensures
        issue_views(r@) == private_access(site@, v@),
{
    if let Node::Expr(e) = v.node {
        match e {
            Expr::Attribute(n) => {
                if let Some(attr) = direct_private_access(n, v.class) {
                    let message = "Accesses private member '.".to_owned().concat(attr).concat(
                        "' through something other than self/cls",
                    );
                    return one(
                        site.report(
                            start_of(&n.range),
                            Severity::Info,
                            "encapsulation-violation",
                            message,
                        ),
                    );
                }
            },
            Expr::Call(n) => {
                if let Some(access) = reflective_private_access(n, v.class) {
                    let message = access.0.to_owned().concat("(..., '").concat(access.1).concat(
                        "', ...) reaches into a private attribute",
                    );
                    return one(
                        site.report(
                            start_of(&n.range),
                            Severity::Info,
                            "encapsulation-violation",
                            message,
                        ),
                    );
                }
            },
            _ => {},
        }
    }
    none()
}

/// `private_access` for one visit, as a relation.
pub open spec fn each_private_access<'a>(site: SiteView) -> spec_fn(Seen<'a>) -> Seq<IssueView> {
    |v: Seen<'a>| private_access(site, v)
}

/// The accesses of a file to private members from outside.
pub open spec fn private_accesses(module: Mod, site: SiteView) -> Seq<IssueView> {
    walk_stmts(body_of(module), expressions(), outset()).flat_map(each_private_access(site))
}

/// The accesses of a file to private members from outside.
pub fn check_encapsulation_violations(module: &Mod, source: &str, filepath: &str, package: &str) -> (r: Vec<Issue>)
    ensures
        issue_views(r@) == private_accesses(*module, site_of(source@, filepath@, package@)),
{
    let site = Site::new(source, filepath, package);
    let check = |v: &Visit| -> (r: Vec<Issue>)
        ensures
            issue_views(r@) == private_access(site@, v@),
        { private_access_issues(&site, v) };
    on_visits(module, expressions(), check, Ghost(each_private_access(site@)))
}

// ── Pass-through methods ────────────────────────────────────────────────────

/// The dotted name that a call goes to.
pub open spec fn target_text(e: &Expr) -> Seq<char>
    decreases e,
{
    match e {
        Expr::Name(n) => identifier_text(n.id),
        Expr::Attribute(a) => target_text(&*a.value) + "."@ + identifier_text(a.attr),
        _ => "<expr>"@,
    }
}

/// The call that an expression is, awaited or not.
pub open spec fn as_call(e: &Expr) -> Option<ExprCall> {
    match e {
        Expr::Call(c) => Some(*c),
        Expr::Await(a) => match *a.value {
            Expr::Call(c) => Some(c),
            _ => None,
        },
        _ => None,
    }
}

/// The call whose value a statement returns or drops.
pub open spec fn statement_call(s: &Stmt) -> Option<ExprCall> {
    match s {
        Stmt::Return(n) => match n.value {
            Some(e) => as_call(&*e),
            None => None,
        },
        Stmt::Expr(n) => as_call(&*n.value),
        _ => None,
    }
}

/// Whether a call is one of a method of `super()`.
pub open spec fn is_super(c: &ExprCall) -> bool {
    *c.func matches Expr::Attribute(a) && *a.value matches Expr::Call(inner) && is_the_name(
        &*inner.func,
        "super"@,
    )
}

/// Whether an argument is handed on as it is.
pub open spec fn is_forwarded(e: &Expr) -> bool {
    e is Name || e is Starred
}

/// Whether all arguments of a call are handed on as they are.
pub open spec fn is_delegation(c: &ExprCall) -> bool {
    &&& forall|i: int| 0 <= i < c.args@.len() ==> is_forwarded(&#[trigger] c.args@[i])
    &&& forall|i: int| 0 <= i < c.keywords@.len() ==> (#[trigger] c.keywords@[i]).value is Name
}

/// The call that a function does nothing but make, if it is such a one.
pub open spec fn delegate(name: Seq<char>, body: Seq<Stmt>) -> Option<ExprCall> {
    let m = meaningful(body);
    if ("__"@.is_prefix_of(name) && "__"@.is_suffix_of(name)) || m.len() != 1 {
        None
    } else {
        match statement_call(m[0]) {
            Some(c) => if !is_super(&c) && is_delegation(&c) {
                Some(c)
            } else {
                None
            },
            None => None,
        }
    }
}

/// A function that only hands its arguments on.
pub open spec fn passes_through(
    site: SiteView,
    name: Seq<char>,
    body: Seq<Stmt>,
    start: u32,
) -> Seq<IssueView> {
    match delegate(name, body) {
        Some(c) => seq![
            report(
                site,
                start,
                Severity::Info,
                "pass-through-method"@,
                name + "() is a pure pass-through to '"@ + target_text(&*c.func)
                    + "()'. Consider exposing the underlying object."@,
            ),
        ],
        None => seq![],
    }
}

/// A visited function that only hands its arguments on.
pub open spec fn pass_through(site: SiteView, v: Seen) -> Seq<IssueView> {
    match v.node {
        Node::Stmt(Stmt::FunctionDef(n)) => passes_through(
            site,
            identifier_text(n.name),
            n.body@,
            range_start(n.range),
        ),
        Node::Stmt(Stmt::AsyncFunctionDef(n)) => passes_through(
            site,
            identifier_text(n.name),
            n.body@,
            range_start(n.range),
        ),
        _ => seq![],
    }
}

fn render_call_target(e: &Expr) -> (r: String)
    ensures
        r@ == target_text(e),
    decreases e,
{
    match e {
        Expr::Name(n) => name_of(&n.id).to_owned(),
        Expr::Attribute(a) => render_call_target(&a.value).concat(".").concat(name_of(&a.attr)),
        _ => "<expr>".to_owned(),
    }
}

fn call_in<'a>(e: &'a Expr) -> (r: Option<&'a ExprCall>)
    ensures
        match r {
            Some(c) => as_call(e) == Some(*c),
            None => as_call(e) is None,
        },
{
    match e {
        Expr::Call(c) => Some(c),
        Expr::Await(a) => match &*a.value {
            Expr::Call(c) => Some(c),
            _ => None,
        },
        _ => None,
    }
}

fn extract_call<'a>(s: &'a Stmt) -> (r: Option<&'a ExprCall>)
    ensures
        match r {
            Some(c) => statement_call(s) == Some(*c),
            None => statement_call(s) is None,
        },
{
    match s {
        Stmt::Return(n) => match &n.value {
            Some(e) => call_in(e),
            None => None,
        },
        Stmt::Expr(n) => call_in(&n.value),
        _ => None,
    }
}

fn is_super_call(c: &ExprCall) -> (r: bool)
    ensures
        r == is_super(c),
{
    match &*c.func {
        Expr::Attribute(a) => match &*a.value {
            Expr::Call(inner) => is_name_expr(&inner.func, "super"),
            _ => false,
        },
        _ => false,
    }
}

fn are_forwarded(args: &Vec<Expr>) -> (r: bool)
    ensures
        r == forall|i: int| 0 <= i < args@.len() ==> is_forwarded(&#[trigger] args@[i]),
{
    let mut i: usize = 0;
    while i < args.len()
        invariant
            i <= args@.len(),
            forall|j: int| 0 <= j < i ==> is_forwarded(&#[trigger] args@[j]),
        decreases args@.len() - i,
    {
        match &args[i] {
            Expr::Name(_) | Expr::Starred(_) => {},
            _ => {
                assert(!is_forwarded(&args@[i as int]));
                return false;
            },
        }
        i += 1;
    }
    true
}

fn are_names(keywords: &Vec<Keyword>) -> (r: bool)
    ensures
        r == forall|i: int| 0 <= i < keywords@.len() ==> (#[trigger] keywords@[i]).value is Name,
{
    let mut i: usize = 0;
    while i < keywords.len()
        invariant
            i <= keywords@.len(),
            forall|j: int| 0 <= j < i ==> (#[trigger] keywords@[j]).value is Name,
        decreases keywords@.len() - i,
    {
        match &keywords[i].value {
            Expr::Name(_) => {},
            _ => {
                assert(!(keywords@[i as int].value is Name));
                return false;
            },
        }
        i += 1;
    }
    true
}

fn is_pure_delegation_call(c: &ExprCall) -> (r: bool)
    ensures
        r == is_delegation(c),
{
    are_forwarded(&c.args) && are_names(&c.keywords)
}

fn pass_through_function(site: &Site, name: &str, body: &Vec<Stmt>, start: u32) -> (r: Vec<Issue>)
    ensures
        issue_views(r@) == passes_through(site@, name@, body@, start),
{
    if starts_with(name, "__") && ends_with(name, "__") {
        return none();
    }
    let found = meaningful_stmts(body.as_slice());
    if found.len() != 1 {
        return none();
    }
    match extract_call(found[0]) {
        Some(c) => {
            if !is_super_call(c) && is_pure_delegation_call(c) {
                let message = name.to_owned().concat("() is a pure pass-through to '").concat(
                    render_call_target(&c.func).as_str(),
                ).concat("()'. Consider exposing the underlying object.");
                one(site.report(start, Severity::Info, "pass-through-method", message))
            } else {
                none()
            }
        },
        None => none(),
    }
}

fn pass_through_issues(site: &Site, v: &Visit) -> (r: Vec<Issue>)
    ensures
        issue_views(r@) == pass_through(site@, v@),
{
    if let Node::Stmt(s) = v.node {
        match s {
            Stmt::FunctionDef(n) => {
                return pass_through_function(site, name_of(&n.name), &n.body, start_of(&n.range));
            },
            Stmt::AsyncFunctionDef(n) => {
                return pass_through_function(site, name_of(&n.name), &n.body, start_of(&n.range));
            },
            _ => {},
        }
    }
    none()
}

/// `pass_through` for one visit, as a relation.
pub open spec fn each_pass_through<'a>(site: SiteView) -> spec_fn(Seen<'a>) -> Seq<IssueView> {
    |v: Seen<'a>| pass_through(site, v)
}

/// The functions of a file that only hand their arguments on.
pub open spec fn pass_throughs(module: Mod, site: SiteView) -> Seq<IssueView> {
    walk_stmts(body_of(module), statements(), outset()).flat_map(each_pass_through(site))
}

/// The functions of a file that only hand their arguments on.
pub fn check_pass_through_methods(module: &Mod, source: &str, filepath: &str, package: &str) -> (r: Vec<Issue>)
    ensures
        issue_views(r@) == pass_throughs(*module, site_of(source@, filepath@, package@)),
{
    let site = Site::new(source, filepath, package);
    let check = |v: &Visit| -> (r: Vec<Issue>)
        ensures
            issue_views(r@) == pass_through(site@, v@),
        { pass_through_issues(&site, v) };
    on_visits(module, statements(), check, Ghost(each_pass_through(site@)))
}

} // verus!
