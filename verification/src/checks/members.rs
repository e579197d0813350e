//! Which classes and accesses the checks of classes report.

use crate::ast_helpers::meaningful;
use crate::checks::branches::at_start;
use crate::checks::classes::{
    ancestors, base_texts, class_attrs, classes_in, decorated_definitions, decorator_name,
    deep_class, deep_classes, delegate, each_assigned_attr, each_decorated_definition,
    each_deep_class, each_end_name, each_god_class, each_lazy_class, each_pass_through,
    each_private_access, found_class, god_classes, is_ancestor, is_chain, is_exempt, is_exempt_base,
    is_forwarded, lazy_classes, method_attrs, method_count, pass_throughs, private_access,
    private_accesses, statement_call,
};
use crate::checks::common::{body_of, SiteView};
use crate::checks::limits::always;
use crate::checks::reporting::{
    finds_statement, has_one_at, is_at, is_on_statements, lemma_on_statements,
};
use crate::models::{IssueView, Severity};
use crate::order::lemma_flat_map_contains;
use crate::syntax::{identifier_text, range_start};
use crate::text::{dec, lemma_distinct_texts};
use crate::walk::{expressions, outset, statements, walk_stmt, walk_stmts, Node, Seen};
use crate::within::{
    expression_in, law_expressions_are_found, law_found_statements_stand_in,
    law_statements_are_found, leads_down, reaches, stands_in,
};
use rustpython_ast::{Expr, ExprCall, ExprAttribute, Mod, Stmt, StmtClassDef};
use vstd::prelude::*;
use vstd::string::*;

verus! {

/// Functions and classes with more than so many decorators.
pub open spec fn more_decorators(n: nat) -> spec_fn(Stmt) -> bool {
    |s: Stmt|
        match s {
            Stmt::FunctionDef(d) => d.decorator_list@.len() > n,
            Stmt::AsyncFunctionDef(d) => d.decorator_list@.len() > n,
            Stmt::ClassDef(d) => d.decorator_list@.len() > n,
            _ => false,
        }
}

pub open spec fn decorators_told() -> spec_fn(Stmt) -> Seq<char> {
    |s: Stmt|
        match s {
            Stmt::FunctionDef(d) => "function"@ + " '"@ + identifier_text(d.name) + "' has "@ + dec(
                d.decorator_list@.len(),
            ) + " decorators (max "@,
            Stmt::AsyncFunctionDef(d) => "function"@ + " '"@ + identifier_text(d.name) + "' has "@
                + dec(d.decorator_list@.len()) + " decorators (max "@,
            Stmt::ClassDef(d) => "class"@ + " '"@ + identifier_text(d.name) + "' has "@ + dec(
                d.decorator_list@.len(),
            ) + " decorators (max "@,
            _ => seq![],
        }
}

/// The functions and classes of a file with more than three decorators are reported, and no
/// others.
pub proof fn law_excessive_decorators_are_reported(module: Mod, site: SiteView)
    ensures
        is_on_statements(
            decorated_definitions(module, site),
            body_of(module),
            site,
            more_decorators(3),
            at_start(),
            always(Severity::Info),
            "excessive-decorators"@,
            decorators_told(),
        ),
{
    let f = each_decorated_definition(site);
    let bad = more_decorators(3);
    assert forall|v: Seen|
        match v.node {
            Node::Stmt(s) => if bad(*s) {
                (#[trigger] f(v)).len() == 1 && is_at(
                    f(v)[0],
                    site,
                    at_start()(*s),
                    always(Severity::Info)(*s),
                    "excessive-decorators"@,
                    decorators_told()(*s),
                )
            } else {
                f(v).len() == 0
            },
            _ => f(v).len() == 0,
        } by {
        if let Node::Stmt(s) = v.node {
            if bad(*s) {
                let head = decorators_told()(*s);
                assert(f(v).len() == 1);
                assert(f(v)[0].message.take(head.len() as int) =~= head);
            }
        }
    }
    assert(finds_statement(f, site, bad, at_start(), always(Severity::Info), "excessive-decorators"@, decorators_told()));
    lemma_on_statements(
        body_of(module),
        f,
        site,
        bad,
        at_start(),
        always(Severity::Info),
        "excessive-decorators"@,
        decorators_told(),
    );
}

// ── Methods ─────────────────────────────────────────────────────────────────

/// Statements that define a function.
pub open spec fn is_method() -> spec_fn(Stmt) -> bool {
    |s: Stmt| s is FunctionDef || s is AsyncFunctionDef
}

proof fn lemma_methods(body: Seq<Stmt>)
    ensures
        method_count(body) == body.filter(is_method()).len(),
    decreases body.len(),
{
    reveal(Seq::filter);
    if body.len() > 0 {
        lemma_methods(body.drop_last());
    }
}

/// Whether an expression is a name, or an attribute of that name.
pub open spec fn ends_in(e: Expr, name: Seq<char>) -> bool {
    match e {
        Expr::Name(n) => identifier_text(n.id) == name,
        Expr::Attribute(a) => identifier_text(a.attr) == name,
        _ => false,
    }
}

/// Whether a base class makes a class a data container or an exception.
pub open spec fn is_exempting(e: Expr) -> bool {
    ||| ends_in(e, "BaseModel"@)
    ||| ends_in(e, "BaseSettings"@)
    ||| ends_in(e, "NamedTuple"@)
    ||| exists|name: Seq<char>| #[trigger]
        ends_in(e, name) && ("Error"@.is_suffix_of(name) || "Exception"@.is_suffix_of(name)
            || "Warning"@.is_suffix_of(name))
}

/// Whether a class is a data container or an exception already: by one of its base classes,
/// or by the decorator `dataclass`, with or without arguments.
pub open spec fn is_plain_data(n: StmtClassDef) -> bool {
    ||| exists|i: int| 0 <= i < n.bases@.len() && is_exempting(#[trigger] n.bases@[i])
    ||| exists|i: int|
        0 <= i < n.decorator_list@.len() && match #[trigger] n.decorator_list@[i] {
            Expr::Call(c) => ends_in(*c.func, "dataclass"@),
            e => ends_in(e, "dataclass"@),
        }
}

proof fn lemma_plain_data(n: &StmtClassDef)
    ensures
        is_exempt(n) == is_plain_data(*n),
{
    let names = base_texts(n.bases@);
    if exists|i: int| 0 <= i < n.bases@.len() && is_exempting(#[trigger] n.bases@[i]) {
        let i = choose|i: int| 0 <= i < n.bases@.len() && is_exempting(#[trigger] n.bases@[i]);
        let e = n.bases@[i];
        let name = match e {
            Expr::Name(n) => identifier_text(n.id),
            Expr::Attribute(a) => identifier_text(a.attr),
            _ => seq![],
        };
        assert(each_end_name()(e)[0] == name);
        assert(each_end_name()(n.bases@[i]).contains(name));
        lemma_flat_map_contains(n.bases@, each_end_name(), name);
        let j = names.index_of(name);
        assert(is_exempt_base(names[j]));
    }
    if exists|j: int| 0 <= j < names.len() && is_exempt_base(#[trigger] names[j]) {
        let j = choose|j: int| 0 <= j < names.len() && is_exempt_base(#[trigger] names[j]);
        let name = names[j];
        assert(names.contains(name));
        lemma_flat_map_contains(n.bases@, each_end_name(), name);
        let i = choose|i: int|
            0 <= i < n.bases@.len() && each_end_name()(#[trigger] n.bases@[i]).contains(name);
        assert(ends_in(n.bases@[i], name));
        assert(is_exempting(n.bases@[i]));
    }
    if exists|i: int|
        0 <= i < n.decorator_list@.len() && decorator_name(&#[trigger] n.decorator_list@[i])
            == Some("dataclass"@) {
        let i = choose|i: int|
            0 <= i < n.decorator_list@.len() && decorator_name(&#[trigger] n.decorator_list@[i])
                == Some("dataclass"@);
        assert(n.decorator_list@[i] == n.decorator_list@[i]);
    }
    if exists|i: int|
        0 <= i < n.decorator_list@.len() && match #[trigger] n.decorator_list@[i] {
            Expr::Call(c) => ends_in(*c.func, "dataclass"@),
            e => ends_in(e, "dataclass"@),
        } {
        let i = choose|i: int|
            0 <= i < n.decorator_list@.len() && match #[trigger] n.decorator_list@[i] {
                Expr::Call(c) => ends_in(*c.func, "dataclass"@),
                e => ends_in(e, "dataclass"@),
            };
        assert(decorator_name(&n.decorator_list@[i]) == Some("dataclass"@));
    }
}

/// Classes with fewer than so many methods that are no data containers or exceptions.
pub open spec fn has_hardly_a_method(n: nat) -> spec_fn(Stmt) -> bool {
    |s: Stmt|
        s matches Stmt::ClassDef(c) && c.body@.filter(is_method()).len() < n && !is_plain_data(c)
}

pub open spec fn lazy_told() -> spec_fn(Stmt) -> Seq<char> {
    |s: Stmt|
        match s {
            Stmt::ClassDef(c) => "class '"@ + identifier_text(c.name) + "' has "@ + dec(
                c.body@.filter(is_method()).len(),
            ),
            _ => seq![],
        }
}

/// The classes of a file with fewer than two methods that are no data containers or exceptions
/// are reported, and no others.
pub proof fn law_lazy_classes_are_reported(module: Mod, site: SiteView)
    ensures
        is_on_statements(
            lazy_classes(module, site),
            body_of(module),
            site,
            has_hardly_a_method(2),
            at_start(),
            always(Severity::Info),
            "lazy-class"@,
            lazy_told(),
        ),
{
    let f = each_lazy_class(site);
    let bad = has_hardly_a_method(2);
    assert forall|v: Seen|
        match v.node {
            Node::Stmt(s) => if bad(*s) {
                (#[trigger] f(v)).len() == 1 && is_at(
                    f(v)[0],
                    site,
                    at_start()(*s),
                    always(Severity::Info)(*s),
                    "lazy-class"@,
                    lazy_told()(*s),
                )
            } else {
                f(v).len() == 0
            },
            _ => f(v).len() == 0,
        } by {
        if let Node::Stmt(s) = v.node {
            if let Stmt::ClassDef(c) = s {
                lemma_methods(c.body@);
                lemma_plain_data(c);
            }
            if bad(*s) {
                let head = lazy_told()(*s);
                assert(f(v).len() == 1);
                assert(f(v)[0].message.take(head.len() as int) =~= head);
            }
        }
    }
    assert(finds_statement(f, site, bad, at_start(), always(Severity::Info), "lazy-class"@, lazy_told()));
    lemma_on_statements(
        body_of(module),
        f,
        site,
        bad,
        at_start(),
        always(Severity::Info),
        "lazy-class"@,
        lazy_told(),
    );
}

/// The attributes of a class are told apart by their names, and those that a method assigns to
/// directly are among them.
pub proof fn law_assigned_attributes_are_counted(
    body: Seq<Stmt>,
    k: int,
    line: Seq<Expr>,
    inner: Stmt,
    attr: Seq<char>,
)
    requires
        0 <= k < body.len(),
        body[k] is FunctionDef || body[k] is AsyncFunctionDef,
        stands_in(seq![body[k]], inner),
        leads_down(inner, line),
        line.last() matches Expr::Attribute(a) && a.ctx is Store && (*a.value matches Expr::Name(n)
            && identifier_text(n.id) == "self"@) && identifier_text(a.attr) == attr,
    ensures
        class_attrs(body).contains(attr),
        class_attrs(body).no_duplicates(),
{
    let one = seq![body[k]];
    let e = line.last();
    assert(expression_in(one, e));
    law_expressions_are_found(one, &e);
    assert(one.drop_last() =~= Seq::<Stmt>::empty());
    assert(walk_stmts(Seq::<Stmt>::empty(), expressions(), outset()) =~= seq![]);
    let v = walk_stmt(&body[k], expressions(), outset());
    assert(walk_stmts(one, expressions(), outset()) =~= v);
    let j = choose|j: int| 0 <= j < v.len() && (#[trigger] v[j]).node == Node::Expr(&e);
    assert(each_assigned_attr()(v[j])[0] == attr);
    assert(each_assigned_attr()(v[j]).contains(attr));
    lemma_flat_map_contains(v, each_assigned_attr(), attr);
    assert(method_attrs()(body[k]).contains(attr));
    lemma_flat_map_contains(body, method_attrs(), attr);
    lemma_distinct_texts(body.flat_map(method_attrs()));
}

/// Classes with at least so many methods or more than so many attributes.
pub open spec fn holds_too_much(methods: nat, attrs: nat) -> spec_fn(Stmt) -> bool {
    |s: Stmt|
        s matches Stmt::ClassDef(c) && (c.body@.filter(is_method()).len() >= methods || class_attrs(
            c.body@,
        ).len() > attrs)
}

/// A warning, but an error above so many methods or attributes.
pub open spec fn error_beyond(methods: nat, attrs: nat) -> spec_fn(Stmt) -> Severity {
    |s: Stmt|
        match s {
            Stmt::ClassDef(c) => if c.body@.filter(is_method()).len() > methods || class_attrs(
                c.body@,
            ).len() > attrs {
                Severity::Error
            } else {
                Severity::Warning
            },
            _ => Severity::Warning,
        }
}

pub open spec fn god_told() -> spec_fn(Stmt) -> Seq<char> {
    |s: Stmt|
        match s {
            Stmt::ClassDef(c) => "class "@ + identifier_text(c.name) + " has "@ + dec(
                c.body@.filter(is_method()).len(),
            ) + " methods and "@ + dec(class_attrs(c.body@).len()) + " attributes (max "@,
            _ => seq![],
        }
}

/// The classes of a file with twenty-five methods or more, or with more than twenty attributes,
/// are reported, and no others: as errors above thirty-seven methods or thirty attributes.
pub proof fn law_god_classes_are_reported(module: Mod, site: SiteView)
    ensures
        is_on_statements(
            god_classes(module, site),
            body_of(module),
            site,
            holds_too_much(25, 20),
            at_start(),
            error_beyond(37, 30),
            "god-class"@,
            god_told(),
        ),
{
    let f = each_god_class(site);
    let bad = holds_too_much(25, 20);
    assert forall|v: Seen|
        match v.node {
            Node::Stmt(s) => if bad(*s) {
                (#[trigger] f(v)).len() == 1 && is_at(
                    f(v)[0],
                    site,
                    at_start()(*s),
                    error_beyond(37, 30)(*s),
                    "god-class"@,
                    god_told()(*s),
                )
            } else {
                f(v).len() == 0
            },
            _ => f(v).len() == 0,
        } by {
        if let Node::Stmt(s) = v.node {
            if let Stmt::ClassDef(c) = s {
                lemma_methods(c.body@);
            }
            if bad(*s) {
                let head = god_told()(*s);
                assert(f(v).len() == 1);
                assert(f(v)[0].message.take(head.len() as int) =~= head);
            }
        }
    }
    assert(finds_statement(f, site, bad, at_start(), error_beyond(37, 30), "god-class"@, god_told()));
    lemma_on_statements(
        body_of(module),
        f,
        site,
        bad,
        at_start(),
        error_beyond(37, 30),
        "god-class"@,
        god_told(),
    );
}

// ── Ancestors ───────────────────────────────────────────────────────────────

/// The classes of a file are the class definitions that stand in it, at any level.
pub proof fn law_classes_stand_in_the_body(body: Seq<Stmt>, n: &StmtClassDef)
    ensures
        classes_in(body).contains(n) <==> stands_in(body, Stmt::ClassDef(*n)),
{
    let s = Stmt::ClassDef(*n);
    let v = walk_stmts(body, statements(), outset());
    lemma_flat_map_contains(v, found_class(), n);
    if classes_in(body).contains(n) {
        let i = choose|i: int| 0 <= i < v.len() && found_class()(#[trigger] v[i]).contains(n);
        if let Node::Stmt(t) = v[i].node {
            assert(reaches(v, Node::Stmt(t)));
            law_found_statements_stand_in(body, statements(), t);
        }
    }
    if stands_in(body, s) {
        law_statements_are_found(body, &s);
        let i = choose|i: int| 0 <= i < v.len() && (#[trigger] v[i]).node == Node::Stmt(&s);
        assert(found_class()(v[i])[0] == n);
        assert(found_class()(v[i]).contains(n));
    }
}

/// The bases of a class are its ancestors, and so are the bases of the file's class of an
/// ancestor's name; the class itself never is.
pub proof fn law_bases_are_ancestors(
    classes: Seq<&StmtClassDef>,
    own: Seq<char>,
    bases: Seq<Seq<char>>,
    name: Seq<char>,
    k: int,
    further: Seq<char>,
)
    ensures
        bases.contains(name) && name != own ==> is_ancestor(classes, own, bases, name),
        is_ancestor(classes, own, bases, name) && 0 <= k < classes.len() && identifier_text(
            classes[k].name,
        ) == name && base_texts(classes[k].bases@).contains(further) && further != own
            ==> is_ancestor(classes, own, bases, further),
        !is_ancestor(classes, own, bases, own),
{
    if bases.contains(name) && name != own {
        assert(is_chain(classes, own, bases, seq![name]));
        assert(seq![name].last() == name);
    }
    if is_ancestor(classes, own, bases, name) && 0 <= k < classes.len() && identifier_text(
        classes[k].name,
    ) == name && base_texts(classes[k].bases@).contains(further) && further != own {
        let chain = choose|chain: Seq<Seq<char>>| #[trigger]
            is_chain(classes, own, bases, chain) && chain.last() == name;
        let g = crate::checks::classes::bases_if_named(name);
        assert(g(classes[k]).contains(further));
        lemma_flat_map_contains(classes, g, further);
        let longer = chain.push(further);
        assert forall|i: int| 0 <= i < longer.len() - 1 implies crate::checks::classes::bases_of(
            classes,
            #[trigger] longer[i],
        ).contains(longer[i + 1]) by {
            assert(longer[i] == chain[i]);
            if i < chain.len() - 1 {
                assert(longer[i + 1] == chain[i + 1]);
            } else {
                assert(longer[i] == name);
            }
        }
        assert forall|i: int| 0 <= i < longer.len() implies #[trigger] longer[i] != own by {
            if i < chain.len() {
                assert(longer[i] == chain[i]);
            }
        }
        assert(longer[0] == chain[0]);
        assert(is_chain(classes, own, bases, longer));
        assert(longer.last() == further);
    }
    if is_ancestor(classes, own, bases, own) {
        let chain = choose|chain: Seq<Seq<char>>| #[trigger]
            is_chain(classes, own, bases, chain) && chain.last() == own;
        assert(chain[chain.len() - 1] != own);
    }
}

/// The base of a class counts under the name that it ends in.
pub proof fn law_bases_count_by_name(bases: Seq<Expr>, name: Seq<char>)
    ensures
        base_texts(bases).contains(name) <==> exists|i: int|
            0 <= i < bases.len() && ends_in(#[trigger] bases[i], name),
{
    lemma_flat_map_contains(bases, each_end_name(), name);
    if base_texts(bases).contains(name) {
        let i = choose|i: int|
            0 <= i < bases.len() && each_end_name()(#[trigger] bases[i]).contains(name);
        assert(ends_in(bases[i], name));
    }
    if exists|i: int| 0 <= i < bases.len() && ends_in(#[trigger] bases[i], name) {
        let i = choose|i: int| 0 <= i < bases.len() && ends_in(#[trigger] bases[i], name);
        assert(each_end_name()(bases[i])[0] == name);
        assert(each_end_name()(bases[i]).contains(name));
    }
}

/// How many ancestors a class of a file has, as far as the file's own classes show.
pub open spec fn ancestor_count(module: Mod, n: StmtClassDef) -> nat {
    ancestors(classes_in(body_of(module)), identifier_text(n.name), base_texts(n.bases@)).len()
}

/// A class of a file is reported exactly where it has base classes and more than four
/// ancestors.
pub proof fn law_deep_classes_are_reported(module: Mod, site: SiteView, n: &StmtClassDef)
    requires
        stands_in(body_of(module), Stmt::ClassDef(*n)),
    ensures
        n.bases@.len() > 0 && ancestor_count(module, *n) > 4 ==> has_one_at(
            deep_classes(module, site),
            site,
            range_start(n.range),
            Severity::Warning,
            "deep-inheritance"@,
            "class '"@ + identifier_text(n.name) + "' has effective inheritance depth "@ + dec(
                ancestor_count(module, *n),
            ),
        ),
        n.bases@.len() == 0 || ancestor_count(module, *n) <= 4 ==> deep_class(
            site,
            classes_in(body_of(module)),
            n,
        ).len() == 0,
{
    let classes = classes_in(body_of(module));
    let f = each_deep_class(site, classes);
    law_classes_stand_in_the_body(body_of(module), n);
    let k = classes.index_of(n);
    if n.bases@.len() > 0 && ancestor_count(module, *n) > 4 {
        let x = f(n)[0];
        let r = deep_classes(module, site);
        assert(f(classes[k]).contains(x));
        lemma_flat_map_contains(classes, f, x);
        let j = r.index_of(x);
        let head = "class '"@ + identifier_text(n.name) + "' has effective inheritance depth "@
            + dec(ancestor_count(module, *n));
        assert(x.message.take(head.len() as int) =~= head);
        assert(is_at(
            r[j],
            site,
            range_start(n.range),
            Severity::Warning,
            "deep-inheritance"@,
            head,
        ));
    }
}

/// What is reported as deep inheritance is a class of the file with more than four ancestors.
pub proof fn law_reported_classes_are_deep(module: Mod, site: SiteView, x: IssueView) -> (n:
    StmtClassDef)
    requires
        deep_classes(module, site).contains(x),
    ensures
        stands_in(body_of(module), Stmt::ClassDef(n)),
        n.bases@.len() > 0,
        ancestor_count(module, n) > 4,
        x.rule == "deep-inheritance"@,
        x.severity == Severity::Warning,
{
    let classes = classes_in(body_of(module));
    let f = each_deep_class(site, classes);
    lemma_flat_map_contains(classes, f, x);
    let k = choose|k: int| 0 <= k < classes.len() && f(#[trigger] classes[k]).contains(x);
    assert(classes.contains(classes[k]));
    law_classes_stand_in_the_body(body_of(module), classes[k]);
    *classes[k]
}

// ── Private members ─────────────────────────────────────────────────────────

/// Whether a name begins with an underscore, but is no special name.
pub open spec fn is_private_name(name: Seq<char>) -> bool {
    "_"@.is_prefix_of(name) && !(name.len() >= 4 && "__"@.is_prefix_of(name)
        && "__"@.is_suffix_of(name))
}

/// Whether an expression is the name `self` or `cls`, any name, or a call of `super`: what a
/// private member may be reached through, the class around apart.
pub open spec fn is_no_way_in(base: Expr) -> bool {
    match base {
        Expr::Name(_) => false,
        Expr::Call(c) => !(*c.func matches Expr::Name(n) && identifier_text(n.id) == "super"@),
        _ => true,
    }
}

/// A private member that is read through anything but a name or a call of `super` is reported,
/// wherever it stands in the file.
pub proof fn law_private_reads_are_reported(module: Mod, site: SiteView, e: &Expr)
    requires
        expression_in(body_of(module), *e),
        e matches Expr::Attribute(a) && a.ctx is Load && is_private_name(identifier_text(a.attr))
            && is_no_way_in(*a.value),
    ensures
        e matches Expr::Attribute(a) && has_one_at(
            private_accesses(module, site),
            site,
            range_start(a.range),
            Severity::Info,
            "encapsulation-violation"@,
            "Accesses private member '."@ + identifier_text(a.attr),
        ),
{
    let v = walk_stmts(body_of(module), expressions(), outset());
    let f = each_private_access(site);
    law_expressions_are_found(body_of(module), e);
    let k = choose|k: int| 0 <= k < v.len() && (#[trigger] v[k]).node == Node::Expr(e);
    if let Expr::Attribute(a) = e {
        let x = f(v[k])[0];
        let r = private_accesses(module, site);
        assert(f(v[k]).contains(x));
        lemma_flat_map_contains(v, f, x);
        let j = r.index_of(x);
        let head = "Accesses private member '."@ + identifier_text(a.attr);
        assert(x.message.take(head.len() as int) =~= head);
        assert(is_at(
            r[j],
            site,
            range_start(a.range),
            Severity::Info,
            "encapsulation-violation"@,
            head,
        ));
    }
}

/// Whether a private member is read through a name other than `self`, `cls` and that of the
/// class around, or through something that is neither a name nor a call of `super`.
pub open spec fn reads_from_outside(a: ExprAttribute, class: Option<Seq<char>>) -> bool {
    &&& a.ctx is Load
    &&& is_private_name(identifier_text(a.attr))
    &&& match *a.value {
        Expr::Name(n) => identifier_text(n.id) != "self"@ && identifier_text(n.id) != "cls"@
            && class != Some(identifier_text(n.id)),
        Expr::Call(c) => !(*c.func matches Expr::Name(n) && identifier_text(n.id) == "super"@),
        _ => true,
    }
}

/// Of a member access a finding is made exactly where a private member is read from outside,
/// whatever class is around.
pub proof fn law_private_reads_are_from_outside(site: SiteView, v: Seen, a: ExprAttribute)
    requires
        v.node matches Node::Expr(e) && *e == Expr::Attribute(a),
    ensures
        private_access(site, v).len() == if reads_from_outside(
            a,
            crate::ast_helpers::class_name(v.class),
        ) {
            1nat
        } else {
            0nat
        },
{
}

// ── Functions that only hand on ─────────────────────────────────────────────

/// The call that an expression is, awaited or not.
pub open spec fn called_by(e: Expr) -> Option<ExprCall> {
    match e {
        Expr::Call(c) => Some(c),
        Expr::Await(a) => match *a.value {
            Expr::Call(c) => Some(c),
            _ => None,
        },
        _ => None,
    }
}

/// Whether a call hands on names and starred values only, and is none of a method of
/// `super()`.
pub open spec fn only_hands_on(c: ExprCall) -> bool {
    &&& forall|i: int|
        0 <= i < c.args@.len() ==> (#[trigger] c.args@[i]) is Name || c.args@[i] is Starred
    &&& forall|i: int| 0 <= i < c.keywords@.len() ==> (#[trigger] c.keywords@[i]).value is Name
    &&& !(*c.func matches Expr::Attribute(a) && *a.value matches Expr::Call(inner)
        && *inner.func matches Expr::Name(n) && identifier_text(n.id) == "super"@)
}

/// Functions whose body, but for strings on their own, is one call that only hands on what it
/// is given, returned or dropped; special methods are left out.
pub open spec fn is_pass_through() -> spec_fn(Stmt) -> bool {
    |s: Stmt|
        match s {
            Stmt::FunctionDef(n) => passes_on(identifier_text(n.name), n.body@),
            Stmt::AsyncFunctionDef(n) => passes_on(identifier_text(n.name), n.body@),
            _ => false,
        }
}

/// Whether a function of a name and a body is such a one.
pub open spec fn passes_on(name: Seq<char>, body: Seq<Stmt>) -> bool {
    &&& !("__"@.is_prefix_of(name) && "__"@.is_suffix_of(name))
    &&& meaningful(body).len() == 1
    &&& match *meaningful(body)[0] {
        Stmt::Return(n) => n.value matches Some(e) && called_by(*e) matches Some(c)
            && only_hands_on(c),
        Stmt::Expr(n) => called_by(*n.value) matches Some(c) && only_hands_on(c),
        _ => false,
    }
}

pub open spec fn pass_told() -> spec_fn(Stmt) -> Seq<char> {
    |s: Stmt|
        match s {
            Stmt::FunctionDef(n) => identifier_text(n.name) + "() is a pure pass-through to '"@,
            Stmt::AsyncFunctionDef(n) => identifier_text(n.name)
                + "() is a pure pass-through to '"@,
            _ => seq![],
        }
}

proof fn lemma_passes_on(name: Seq<char>, body: Seq<Stmt>)
    ensures
        delegate(name, body) is Some <==> passes_on(name, body),
{
    let m = meaningful(body);
    if m.len() == 1 {
        if let Some(c) = statement_call(m[0]) {
            assert(crate::checks::classes::is_delegation(&c) ==> forall|i: int|
                0 <= i < c.args@.len() ==> is_forwarded(&#[trigger] c.args@[i]));
            assert((forall|i: int|
                0 <= i < c.args@.len() ==> is_forwarded(&#[trigger] c.args@[i])) <==> (forall|i: int|
                0 <= i < c.args@.len() ==> (#[trigger] c.args@[i]) is Name || c.args@[i]
                    is Starred));
        }
    }
}

/// The functions of a file that only hand on what they are given are reported, and no others.
pub proof fn law_pass_throughs_are_reported(module: Mod, site: SiteView)
    ensures
        is_on_statements(
            pass_throughs(module, site),
            body_of(module),
            site,
            is_pass_through(),
            at_start(),
            always(Severity::Info),
            "pass-through-method"@,
            pass_told(),
        ),
{
    let f = each_pass_through(site);
    let bad = is_pass_through();
    assert forall|v: Seen|
        match v.node {
            Node::Stmt(s) => if bad(*s) {
                (#[trigger] f(v)).len() == 1 && is_at(
                    f(v)[0],
                    site,
                    at_start()(*s),
                    always(Severity::Info)(*s),
                    "pass-through-method"@,
                    pass_told()(*s),
                )
            } else {
                f(v).len() == 0
            },
            _ => f(v).len() == 0,
        } by {
        if let Node::Stmt(s) = v.node {
            match s {
                Stmt::FunctionDef(n) => lemma_passes_on(identifier_text(n.name), n.body@),
                Stmt::AsyncFunctionDef(n) => lemma_passes_on(identifier_text(n.name), n.body@),
                _ => {},
            }
            if bad(*s) {
                let head = pass_told()(*s);
                assert(f(v).len() == 1);
                assert(f(v)[0].message.take(head.len() as int) =~= head);
            }
        }
    }
    assert(finds_statement(f, site, bad, at_start(), always(Severity::Info), "pass-through-method"@, pass_told()));
    lemma_on_statements(
        body_of(module),
        f,
        site,
        bad,
        at_start(),
        always(Severity::Info),
        "pass-through-method"@,
        pass_told(),
    );
}

/// Of a body all statements but strings on their own are meaningful, in order.
pub proof fn law_strings_are_not_meaningful(body: Seq<Stmt>, s: Stmt)
    ensures
        s matches Stmt::Expr(e) && (*e.value matches Expr::Constant(c) && c.value is Str)
            ==> meaningful(body.push(s)) == meaningful(body),
        !(s matches Stmt::Expr(e) && (*e.value matches Expr::Constant(c) && c.value is Str))
            ==> meaningful(body.push(s)) == meaningful(body).push(&s),
{
    let f = crate::ast_helpers::unless_docstring();
    body.lemma_flat_map_push(f, s);
    assert(meaningful(body) + Seq::<&Stmt>::empty() =~= meaningful(body));
    assert(meaningful(body) + seq![&s] =~= meaningful(body).push(&s));
}

} // verus!
