//! Checks of module-level state, of scopes and of chains of members.

use crate::ast_helpers::{clamp, def_body, def_name, functions, is_private, private, FuncNode};
use crate::checks::common::{
    body_of, module_body, none, on_functions, one, report, site_of, Site, SiteView,
};
use crate::checks::functions::{is_mutable, is_mutable_literal};
use crate::config::{MAX_MESSAGE_CHAIN_DEPTH, MAX_PUBLIC_SYMBOLS};
use crate::models::{append_issues, finding, issue, issue_views, push_issue, Issue, IssueView, Severity};
use crate::order::{insert_by, ordered, sorted};
use crate::syntax::{identifier_text, name_of, range_start, start_of};
use crate::text::{contains_text, count_text, dec, decimal, join, joined, texts};
use crate::walk::{
    expressions, outset, seen, visits, visits_of, walk_stmt, walk_stmts, Coverage, KeywordValues, Node,
    Seen, Visit,
};
use rustpython_ast::{Expr, Identifier, Mod, Stmt, StmtAssign};
use vstd::prelude::*;
use vstd::string::*;

verus! {

// ── Module-level state ──────────────────────────────────────────────────────

/// A public name that a module-level assignment binds to a mutable value.
pub open spec fn mutable_global(site: SiteView, n: &StmtAssign, target: &Expr) -> Seq<IssueView> {
    match target {
        Expr::Name(name) => if private(identifier_text(name.id)) {
            seq![]
        } else {
            seq![
                report(
                    site,
                    range_start(n.range),
                    Severity::Info,
                    "global-mutable"@,
                    "Module-level mutable '"@ + identifier_text(name.id)
                        + "' — consider encapsulating it in a class and injecting it where needed instead of reaching for module-level global state (Dependency Injection)"@,
                ),
            ]
        },
        _ => seq![],
    }
}

/// `mutable_global` for the targets of one assignment, as a relation.
pub open spec fn each_mutable_global(site: SiteView, n: &StmtAssign) -> spec_fn(Expr) -> Seq<
    IssueView,
> {
    |target: Expr| mutable_global(site, n, &target)
}

/// The public names that a statement binds to a mutable value.
pub open spec fn mutable_globals_of(site: SiteView) -> spec_fn(Stmt) -> Seq<IssueView> {
    |s: Stmt|
        match s {
            Stmt::Assign(n) => if is_mutable(&*n.value) {
                n.targets@.flat_map(each_mutable_global(site, &n))
            } else {
                seq![]
            },
            _ => seq![],
        }
}

/// The public names that the top-level statements of a file bind to a mutable value.
pub open spec fn mutable_globals(module: Mod, site: SiteView) -> Seq<IssueView> {
    body_of(module).flat_map(mutable_globals_of(site))
}

fn mutable_global_issues(site: &Site, n: &StmtAssign) -> (r: Vec<Issue>)
    ensures
        issue_views(r@) == n.targets@.flat_map(each_mutable_global(site@, n)),
{
    let ghost f = each_mutable_global(site@, n);
    let mut issues = none();
    let mut i: usize = 0;
    assert(issue_views(issues@) =~= n.targets@.take(0).flat_map(f));
    while i < n.targets.len()
        invariant
            i <= n.targets@.len(),
            f == each_mutable_global(site@, n),
            issue_views(issues@) == n.targets@.take(i as int).flat_map(f),
        decreases n.targets@.len() - i,
    {
        let ghost before = issue_views(issues@);
        proof {
            n.targets@.lemma_flat_map_take_append(f, i as int);
            assert(before + seq![] =~= before);
        }
        if let Expr::Name(id) = &n.targets[i] {
            let name = name_of(&id.id);
            if !is_private(name) {
                let message = "Module-level mutable '".to_owned().concat(name).concat(
                    "' — consider encapsulating it in a class and injecting it where needed instead of reaching for module-level global state (Dependency Injection)",
                );
                push_issue(
                    &mut issues,
                    site.report(start_of(&n.range), Severity::Info, "global-mutable", message),
                );
            }
        }
        i += 1;
    }
    assert(n.targets@.take(i as int) =~= n.targets@);
    issues
}

/// The public names that the top-level statements of a file bind to a mutable value.
pub fn check_global_mutations(module: &Mod, source: &str, filepath: &str, package: &str) -> (r: Vec<
    Issue,
>)
    ensures
        issue_views(r@) == mutable_globals(*module, site_of(source@, filepath@, package@)),
{
    let site = Site::new(source, filepath, package);
    let body = module_body(module);
    let ghost f = mutable_globals_of(site@);
    let mut issues = none();
    let mut i: usize = 0;
    assert(issue_views(issues@) =~= body@.take(0).flat_map(f));
    while i < body.len()
        invariant
            i <= body@.len(),
            f == mutable_globals_of(site@),
            issue_views(issues@) == body@.take(i as int).flat_map(f),
        decreases body@.len() - i,
    {
        let ghost before = issue_views(issues@);
        proof {
            body@.lemma_flat_map_take_append(f, i as int);
            assert(before + seq![] =~= before);
        }
        if let Stmt::Assign(n) = &body[i] {
            if is_mutable_literal(&n.value) {
                append_issues(&mut issues, mutable_global_issues(&site, n));
            }
        }
        i += 1;
    }
    assert(body@.take(i as int) =~= body@);
    issues
}

// ── God modules ─────────────────────────────────────────────────────────────

/// Whether a statement defines a public class.
pub open spec fn is_public_class(s: &Stmt) -> bool {
    s matches Stmt::ClassDef(n) && !private(identifier_text(n.name))
}

/// Whether a statement defines a public function.
pub open spec fn is_public_function(s: &Stmt) -> bool {
    match s {
        Stmt::FunctionDef(n) => !private(identifier_text(n.name)),
        Stmt::AsyncFunctionDef(n) => !private(identifier_text(n.name)),
        _ => false,
    }
}

/// How many of a list of statements define public classes.
pub open spec fn public_classes(body: Seq<Stmt>) -> nat
    decreases body.len(),
{
    if body.len() == 0 {
        0
    } else {
        public_classes(body.drop_last()) + if is_public_class(&body.last()) {
            1nat
        } else {
            0nat
        }
    }
}

/// How many of a list of statements define public functions.
pub open spec fn public_functions(body: Seq<Stmt>) -> nat
    decreases body.len(),
{
    if body.len() == 0 {
        0
    } else {
        public_functions(body.drop_last()) + if is_public_function(&body.last()) {
            1nat
        } else {
            0nat
        }
    }
}

/// A module with too many public classes and functions at its top level.
pub open spec fn god_module(module: Mod, file: Seq<char>, package: Seq<char>) -> Seq<IssueView> {
    let classes = public_classes(body_of(module));
    let funcs = public_functions(body_of(module));
    if classes + funcs > MAX_PUBLIC_SYMBOLS {
        seq![
            finding(
                file,
                1,
                Severity::Warning,
                "god-module"@,
                package,
                "Module exposes "@ + dec(classes + funcs) + " public symbols ("@ + dec(classes)
                    + " classes, "@ + dec(funcs) + " functions) — consider splitting"@,
            ),
        ]
    } else {
        seq![]
    }
}

/// A module with too many public classes and functions at its top level.
pub fn check_god_module(module: &Mod, _source: &str, filepath: &str, package: &str) -> (r: Vec<
    Issue,
>)
    ensures
        issue_views(r@) == god_module(*module, filepath@, package@),
{
    let body = module_body(module);
    let mut classes: usize = 0;
    let mut funcs: usize = 0;
    let mut i: usize = 0;
    while i < body.len()
        invariant
            i <= body@.len(),
            classes + funcs <= i,
            classes == public_classes(body@.take(i as int)),
            funcs == public_functions(body@.take(i as int)),
        decreases body@.len() - i,
    {
        assert(body@.take(i + 1).drop_last() =~= body@.take(i as int));
        assert(body@.take(i + 1).last() == body@[i as int]);
        match &body[i] {
            Stmt::ClassDef(n) => {
                if !is_private(name_of(&n.name)) {
                    classes += 1;
                }
            },
            Stmt::FunctionDef(n) => {
                if !is_private(name_of(&n.name)) {
                    funcs += 1;
                }
            },
            Stmt::AsyncFunctionDef(n) => {
                if !is_private(name_of(&n.name)) {
                    funcs += 1;
                }
            },
            _ => {},
        }
        i += 1;
    }
    assert(body@.take(i as int) =~= body@);
    let total: usize = classes + funcs;
    if total > MAX_PUBLIC_SYMBOLS {
        let message = "Module exposes ".to_owned().concat(count_text(total).as_str()).concat(
            " public symbols (",
        ).concat(count_text(classes).as_str()).concat(" classes, ").concat(
            count_text(funcs).as_str(),
        ).concat(" functions) — consider splitting");
        one(issue(filepath, 1, Severity::Warning, "god-module", package, message))
    } else {
        none()
    }
}

// ── Scopes ──────────────────────────────────────────────────────────────────

/// The statements of a function's own scope: not those of nested functions and
/// classes.
#[verifier::allow_in_spec]
pub fn own_scope() -> Coverage
    returns
        (Coverage {
            arguments: false,
            comprehensions: false,
            keywords: KeywordValues::Skipped,
            with_items: false,
            functions: false,
            classes: false,
            lambdas: true,
            type_checking: true,
            dict_heads: true,
        }),
{
    Coverage {
        arguments: false,
        comprehensions: false,
        keywords: KeywordValues::Skipped,
        with_items: false,
        functions: false,
        classes: false,
        lambdas: true,
        type_checking: true,
        dict_heads: true,
    }
}

/// The text of a name, as a relation.
pub open spec fn each_text() -> spec_fn(Identifier) -> Seq<Seq<char>> {
    |id: Identifier| seq![identifier_text(id)]
}

/// The names that a visited statement declares global.
pub open spec fn globals_of<'a>() -> spec_fn(Seen<'a>) -> Seq<Seq<char>> {
    |v: Seen<'a>|
        match v.node {
            Node::Stmt(Stmt::Global(n)) => n.names@.flat_map(each_text()),
            _ => seq![],
        }
}

/// The names that a visited statement declares nonlocal.
pub open spec fn nonlocals_of<'a>() -> spec_fn(Seen<'a>) -> Seq<Seq<char>> {
    |v: Seen<'a>|
        match v.node {
            Node::Stmt(Stmt::Nonlocal(n)) => n.names@.flat_map(each_text()),
            _ => seq![],
        }
}

/// The name that an assignment binds, with the statement's position.
pub open spec fn bound_at(pos: u32) -> spec_fn(Expr) -> Seq<(Seq<char>, u32)> {
    |target: Expr|
        match target {
            Expr::Name(n) => seq![(identifier_text(n.id), pos)],
            _ => seq![],
        }
}

/// The names that a visited statement assigns to.
pub open spec fn assigned_of<'a>() -> spec_fn(Seen<'a>) -> Seq<(Seq<char>, u32)> {
    |v: Seen<'a>|
        match v.node {
            Node::Stmt(Stmt::Assign(n)) => n.targets@.flat_map(bound_at(range_start(n.range))),
            Node::Stmt(Stmt::AugAssign(n)) => bound_at(range_start(n.range))(*n.target),
            _ => seq![],
        }
}

/// What happens in a function's own scope: the names declared global, the names
/// declared nonlocal and the assignments, in order.
pub struct ScopeView {
    pub globals: Seq<Seq<char>>,
    pub nonlocals: Seq<Seq<char>>,
    pub assigned: Seq<(Seq<char>, u32)>,
}

/// What happens in a function's own scope.
pub open spec fn scope_of(body: Seq<Stmt>) -> ScopeView {
    let w = walk_stmts(body, own_scope(), outset());
    ScopeView {
        globals: w.flat_map(globals_of()),
        nonlocals: w.flat_map(nonlocals_of()),
        assigned: w.flat_map(assigned_of()),
    }
}

/// The first assignment of `s` to a name from an outer scope, if there is one.
pub open spec fn first_outer(scope: ScopeView, s: Seq<(Seq<char>, u32)>) -> Option<(Seq<char>, u32)>
    decreases s.len(),
{
    if s.len() == 0 {
        None
    } else {
        match first_outer(scope, s.drop_last()) {
            Some(x) => Some(x),
            None => if scope.globals.contains(s.last().0) || scope.nonlocals.contains(s.last().0) {
                Some(s.last())
            } else {
                None
            },
        }
    }
}

/// How a name was declared: `global`, `nonlocal` or both.
pub open spec fn declared_by(scope: ScopeView, name: Seq<char>) -> Seq<Seq<char>> {
    (if scope.globals.contains(name) {
        seq!["global"@]
    } else {
        seq![]
    }) + (if scope.nonlocals.contains(name) {
        seq!["nonlocal"@]
    } else {
        seq![]
    })
}

/// A function that assigns to a name from an outer scope.
pub open spec fn outer_mutation(site: SiteView, s: &Stmt) -> Seq<IssueView> {
    let scope = scope_of(def_body(s));
    match first_outer(scope, scope.assigned) {
        Some(x) => seq![
            report(
                site,
                x.1,
                Severity::Info,
                "scope-mutation"@,
                def_name(s) + "() mutates outer-scope variable '"@ + x.0 + "' via "@ + join(
                    declared_by(scope, x.0),
                    "/"@,
                ) + " — shared mutable state makes control flow hard to trace"@,
            ),
        ],
        None => seq![],
    }
}

/// What happens in a function's own scope.
struct OwnScope {
    globals: Vec<String>,
    nonlocals: Vec<String>,
    assigned: Vec<(String, u32)>,
}

spec fn assigned_views(v: Seq<(String, u32)>) -> Seq<(Seq<char>, u32)> {
    v.map_values(|b: (String, u32)| (b.0@, b.1))
}

impl OwnScope {
    spec fn view(self) -> ScopeView {
        ScopeView {
            globals: texts(self.globals@),
            nonlocals: texts(self.nonlocals@),
            assigned: assigned_views(self.assigned@),
        }
    }
}

fn append_names(out: &mut Vec<String>, names: &Vec<Identifier>)
    ensures
        texts(final(out)@) == texts(old(out)@) + names@.flat_map(each_text()),
{
    let ghost f = each_text();
    let mut i: usize = 0;
    assert(texts(out@) =~= texts(old(out)@) + names@.take(0).flat_map(f));
    while i < names.len()
        invariant
            i <= names@.len(),
            f == each_text(),
            texts(out@) == texts(old(out)@) + names@.take(i as int).flat_map(f),
        decreases names@.len() - i,
    {
        let ghost before = texts(out@);
        proof {
            names@.lemma_flat_map_take_append(f, i as int);
        }
        out.push(name_of(&names[i]).to_owned());
        assert(texts(out@) =~= before + seq![identifier_text(names@[i as int])]);
        assert(texts(out@) =~= texts(old(out)@) + names@.take(i + 1).flat_map(f));
        i += 1;
    }
    assert(names@.take(i as int) =~= names@);
}

fn append_target(out: &mut Vec<(String, u32)>, target: &Expr, pos: u32)
    ensures
        assigned_views(final(out)@) == assigned_views(old(out)@) + bound_at(pos)(*target),
{
    let ghost before = assigned_views(out@);
    assert(before + seq![] =~= before);
    if let Expr::Name(n) = target {
        let name = name_of(&n.id);
        out.push((name.to_owned(), pos));
        assert(assigned_views(out@) =~= before + seq![(name@, pos)]);
    }
}

fn append_targets(out: &mut Vec<(String, u32)>, targets: &Vec<Expr>, pos: u32)
    ensures
        assigned_views(final(out)@) == assigned_views(old(out)@) + targets@.flat_map(bound_at(pos)),
{
    let ghost f = bound_at(pos);
    let mut i: usize = 0;
    assert(assigned_views(out@) =~= assigned_views(old(out)@) + targets@.take(0).flat_map(f));
    while i < targets.len()
        invariant
            i <= targets@.len(),
            f == bound_at(pos),
            assigned_views(out@) == assigned_views(old(out)@) + targets@.take(i as int).flat_map(f),
        decreases targets@.len() - i,
    {
        proof {
            targets@.lemma_flat_map_take_append(f, i as int);
        }
        append_target(out, &targets[i], pos);
        assert(assigned_views(out@) =~= assigned_views(old(out)@) + targets@.take(
            i + 1,
        ).flat_map(f));
        i += 1;
    }
    assert(targets@.take(i as int) =~= targets@);
}

fn collect_own_scope(body: &[Stmt]) -> (r: OwnScope)
    ensures
        r@ == scope_of(body@),
{
    let all = visits(body, own_scope());
    let ghost w = walk_stmts(body@, own_scope(), outset());
    let mut globals: Vec<String> = Vec::new();
    let mut nonlocals: Vec<String> = Vec::new();
    let mut assigned: Vec<(String, u32)> = Vec::new();
    let mut i: usize = 0;
    assert(texts(globals@) =~= w.take(0).flat_map(globals_of()));
    assert(texts(nonlocals@) =~= w.take(0).flat_map(nonlocals_of()));
    assert(assigned_views(assigned@) =~= w.take(0).flat_map(assigned_of()));
    while i < all.len()
        invariant
            i <= all@.len(),
            w == seen(all@),
            texts(globals@) == w.take(i as int).flat_map(globals_of()),
            texts(nonlocals@) == w.take(i as int).flat_map(nonlocals_of()),
            assigned_views(assigned@) == w.take(i as int).flat_map(assigned_of()),
        decreases all@.len() - i,
    {
        proof {
            w.lemma_flat_map_take_append(globals_of(), i as int);
            w.lemma_flat_map_take_append(nonlocals_of(), i as int);
            w.lemma_flat_map_take_append(assigned_of(), i as int);
            assert(w[i as int] == all@[i as int]@);
            assert(texts(globals@) + seq![] =~= texts(globals@));
            assert(texts(nonlocals@) + seq![] =~= texts(nonlocals@));
            assert(assigned_views(assigned@) + seq![] =~= assigned_views(assigned@));
        }
        if let Node::Stmt(s) = all[i].node {
            match s {
                Stmt::Global(n) => append_names(&mut globals, &n.names),
                Stmt::Nonlocal(n) => append_names(&mut nonlocals, &n.names),
                Stmt::Assign(n) => append_targets(&mut assigned, &n.targets, start_of(&n.range)),
                Stmt::AugAssign(n) => append_target(&mut assigned, &n.target, start_of(&n.range)),
                _ => {},
            }
        }
        i += 1;
    }
    assert(w.take(i as int) =~= w);
    OwnScope { globals, nonlocals, assigned }
}

fn outer_mutation_issues(site: &Site, func: &FuncNode) -> (r: Vec<Issue>)
    requires
        func.well_formed(),
    ensures
        issue_views(r@) == outer_mutation(site@, func.stmt),
{
    let scope = collect_own_scope(func.body());
    let ghost all = scope@.assigned;
    let mut i: usize = 0;
    while i < scope.assigned.len()
        invariant
            i <= scope.assigned@.len(),
            func.well_formed(),
            scope@ == scope_of(def_body(func.stmt)),
            all == scope@.assigned,
            first_outer(scope@, all.take(i as int)) is None,
        decreases scope.assigned@.len() - i,
    {
        assert(all.take(i + 1).drop_last() =~= all.take(i as int));
        assert(all.take(i + 1).last() == (scope.assigned@[i as int].0@, scope.assigned@[i as int].1));
        let name = scope.assigned[i].0.as_str();
        let is_global: bool = contains_text(&scope.globals, name);
        let is_nonlocal: bool = contains_text(&scope.nonlocals, name);
        if is_global || is_nonlocal {
            let mut declared: Vec<String> = Vec::new();
            if is_global {
                declared.push("global".to_owned());
            }
            if is_nonlocal {
                declared.push("nonlocal".to_owned());
            }
            assert(texts(declared@) =~= declared_by(scope@, name@));
            proof {
                lemma_first_outer(scope@, all, i as int);
            }
            let message = func.name.clone().concat("() mutates outer-scope variable '").concat(
                name,
            ).concat("' via ").concat(joined(&declared, "/").as_str()).concat(
                " — shared mutable state makes control flow hard to trace",
            );
            return one(
                site.report(scope.assigned[i].1, Severity::Info, "scope-mutation", message),
            );
        }
        i += 1;
    }
    assert(all.take(i as int) =~= all);
    none()
}

/// The first assignment to an outer name stays the first however many follow.
proof fn lemma_first_outer(scope: ScopeView, s: Seq<(Seq<char>, u32)>, k: int)
    requires
        0 <= k < s.len(),
        first_outer(scope, s.take(k)) is None,
        scope.globals.contains(s[k].0) || scope.nonlocals.contains(s[k].0),
    ensures
        first_outer(scope, s) == Some(s[k]),
    decreases s.len(),
{
    if k == s.len() - 1 {
        assert(s.drop_last() =~= s.take(k));
    } else {
        assert(s.drop_last().take(k) =~= s.take(k));
        lemma_first_outer(scope, s.drop_last(), k);
    }
}

/// `outer_mutation` for one function, as a relation.
pub open spec fn each_outer_mutation<'a>(site: SiteView) -> spec_fn(&'a Stmt) -> Seq<IssueView> {
    |s: &'a Stmt| outer_mutation(site, s)
}

/// The functions of a file that assign to names from outer scopes.
pub open spec fn outer_mutations(module: Mod, site: SiteView) -> Seq<IssueView> {
    functions(body_of(module)).flat_map(each_outer_mutation(site))
}

/// The functions of a file that assign to names from outer scopes.
pub fn check_scope_mutations(module: &Mod, source: &str, filepath: &str, package: &str) -> (r: Vec<Issue>)
    ensures
        issue_views(r@) == outer_mutations(*module, site_of(source@, filepath@, package@)),
{
    let site = Site::new(source, filepath, package);
    let check = |func: &FuncNode| -> (r: Vec<Issue>)
        requires
            func.well_formed(),
        ensures
            issue_views(r@) == outer_mutation(site@, func.stmt),
        { outer_mutation_issues(&site, func) };
    on_functions(module, check, Ghost(each_outer_mutation(site@)))
}

// ── Message chains ──────────────────────────────────────────────────────────

/// How many members an expression goes through, held within the range of `i64`.
pub open spec fn chain_length(e: &Expr) -> int
    decreases e,
{
    match e {
        Expr::Call(c) => chain_length(&*c.func),
        Expr::Attribute(a) => clamp(1 + chain_length(&*a.value)),
        _ => 0,
    }
}

/// A call or a member access: how deep it lies, its length and its position.
pub struct LinkView {
    pub depth: nat,
    pub length: int,
    pub start: u32,
}

/// The call or member access that a visit found.
pub open spec fn link_of<'a>() -> spec_fn(Seen<'a>) -> Seq<LinkView> {
    |v: Seen<'a>|
        match v.node {
            Node::Expr(e) => match e {
                Expr::Call(n) => seq![
                    LinkView { depth: v.depth, length: chain_length(e), start: range_start(n.range) },
                ],
                Expr::Attribute(n) => seq![
                    LinkView { depth: v.depth, length: chain_length(e), start: range_start(n.range) },
                ],
                _ => seq![],
            },
            _ => seq![],
        }
}

/// The calls and member accesses in a statement, each before those inside it.
pub open spec fn links_in(s: &Stmt) -> Seq<LinkView> {
    walk_stmt(s, expressions(), outset()).flat_map(link_of())
}

/// Whether a chain is too long.
pub open spec fn is_long(x: LinkView) -> bool {
    x.length > MAX_MESSAGE_CHAIN_DEPTH
}

/// The chain that is too long and lies nearest to the root, of several the first.
pub open spec fn nearest_long(s: Seq<LinkView>) -> Option<LinkView>
    decreases s.len(),
{
    if s.len() == 0 {
        None
    } else {
        let before = nearest_long(s.drop_last());
        if is_long(s.last()) && (before matches Some(b) ==> s.last().depth < b.depth) {
            Some(s.last())
        } else {
            before
        }
    }
}

/// The chain of a top-level statement that is too long.
pub open spec fn long_chain(site: SiteView) -> spec_fn(Stmt) -> Seq<IssueView> {
    |s: Stmt|
        match nearest_long(links_in(&s)) {
            Some(x) => seq![
                report(
                    site,
                    x.start,
                    Severity::Info,
                    "message-chain"@,
                    "method/attribute chain depth "@ + dec(x.length as nat) + " exceeds "@ + dec(
                        MAX_MESSAGE_CHAIN_DEPTH as nat,
                    ) + " — split into intermediate variables"@,
                ),
            ],
            None => seq![],
        }
}

/// The chains of a file that are too long, at most one to a top-level statement.
pub open spec fn long_chains(module: Mod, site: SiteView) -> Seq<IssueView> {
    body_of(module).flat_map(long_chain(site))
}

/// The order of links by depth.
pub open spec fn by_depth() -> spec_fn(LinkView, LinkView) -> bool {
    |a: LinkView, b: LinkView| a.depth <= b.depth
}

/// The first chain of a list that is too long.
pub open spec fn first_long(s: Seq<LinkView>) -> Option<LinkView>
    decreases s.len(),
{
    if s.len() == 0 {
        None
    } else {
        match first_long(s.drop_last()) {
            Some(x) => Some(x),
            None => if is_long(s.last()) {
                Some(s.last())
            } else {
                None
            },
        }
    }
}

/// The chain that is reported is the first too long one in breadth-first order: the
/// links in the order of their depth, those of one depth as they come in the text.
pub proof fn law_chains_are_breadth_first(s: Seq<LinkView>)
    ensures
        nearest_long(s) == first_long(sorted(s, by_depth())),
    decreases s.len(),
{
    if s.len() > 0 {
        let rest = s.drop_last();
        law_chains_are_breadth_first(rest);
        lemma_sorted_by_depth(rest);
        lemma_first_long_insert(sorted(rest, by_depth()), s.last());
    }
}

proof fn lemma_sorted_by_depth(s: Seq<LinkView>)
    ensures
        ordered(sorted(s, by_depth()), by_depth()),
{
    crate::order::lemma_sorted(s, by_depth());
}

/// The first long chain of an ordered list is one of its elements.
proof fn lemma_first_long_bounds(s: Seq<LinkView>)
    requires
        ordered(s, by_depth()),
    ensures
        first_long(s) matches Some(x) ==> is_long(x) && s.len() > 0 && x.depth <= s.last().depth,
    decreases s.len(),
{
    if s.len() > 0 {
        let le = by_depth();
        let rest = s.drop_last();
        assert forall|i: int, j: int| 0 <= i < j < rest.len() implies le(
            #[trigger] rest[i],
            #[trigger] rest[j],
        ) by {
            assert(le(s[i], s[j]));
        }
        lemma_first_long_bounds(rest);
        if rest.len() > 0 {
            assert(le(s[rest.len() - 1], s[s.len() - 1]));
        }
    }
}

proof fn lemma_first_long_insert(s: Seq<LinkView>, x: LinkView)
    requires
        ordered(s, by_depth()),
    ensures
        first_long(insert_by(s, x, by_depth())) == if is_long(x) && (first_long(s) matches Some(b)
            ==> x.depth < b.depth) {
            Some(x)
        } else {
            first_long(s)
        },
    decreases s.len(),
{
    let le = by_depth();
    if s.len() == 0 || le(s.last(), x) {
        lemma_first_long_bounds(s);
        assert(s.push(x).drop_last() =~= s);
    } else {
        let rest = s.drop_last();
        assert forall|i: int, j: int| 0 <= i < j < rest.len() implies le(
            #[trigger] rest[i],
            #[trigger] rest[j],
        ) by {
            assert(le(s[i], s[j]));
        }
        lemma_first_long_insert(rest, x);
        let inner = insert_by(rest, x, le);
        assert(inner.push(s.last()).drop_last() =~= inner);
    }
}

fn chain_depth(e: &Expr) -> (r: i64)
    ensures
        r == chain_length(e),
        r >= 0,
    decreases e,
{
    match e {
        Expr::Call(c) => chain_depth(&c.func),
        Expr::Attribute(a) => {
            let inner: i64 = chain_depth(&a.value);
            if inner == i64::MAX {
                inner
            } else {
                inner + 1
            }
        },
        _ => 0,
    }
}

struct Link {
    depth: usize,
    length: i64,
    start: u32,
}

impl Link {
    spec fn view(self) -> LinkView {
        LinkView { depth: self.depth as nat, length: self.length as int, start: self.start }
    }
}

fn link_at(v: &Visit) -> (r: Option<Link>)
    ensures
        match r {
            Some(x) => link_of()(v@) == seq![x@] && x.length >= 0,
            None => link_of()(v@) == Seq::<LinkView>::empty(),
        },
{
    if let Node::Expr(e) = v.node {
        match e {
            Expr::Call(n) => {
                return Some(
                    Link { depth: v.depth, length: chain_depth(e), start: start_of(&n.range) },
                );
            },
            Expr::Attribute(n) => {
                return Some(
                    Link { depth: v.depth, length: chain_depth(e), start: start_of(&n.range) },
                );
            },
            _ => {},
        }
    }
    None
}

fn find_long_chain(s: &Stmt) -> (r: Option<Link>)
    ensures
        match r {
            Some(x) => nearest_long(links_in(s)) == Some(x@) && x.length >= 0,
            None => nearest_long(links_in(s)) is None,
        },
{
    let all = visits_of(s, expressions());
    let ghost w = walk_stmt(s, expressions(), outset());
    let ghost f = link_of();
    let mut best: Option<Link> = None;
    let mut i: usize = 0;
    assert(w.take(0).flat_map(f) =~= seq![]);
    while i < all.len()
        invariant
            i <= all@.len(),
            w == seen(all@),
            f == link_of(),
            match best {
                Some(x) => nearest_long(w.take(i as int).flat_map(f)) == Some(x@) && x.length >= 0,
                None => nearest_long(w.take(i as int).flat_map(f)) is None,
            },
        decreases all@.len() - i,
    {
        let ghost so_far = w.take(i as int).flat_map(f);
        proof {
            w.lemma_flat_map_take_append(f, i as int);
            assert(w[i as int] == all@[i as int]@);
            assert(so_far + seq![] =~= so_far);
        }
        if let Some(x) = link_at(&all[i]) {
            assert((so_far + seq![x@]).drop_last() =~= so_far);
            assert((so_far + seq![x@]).last() == x@);
            if x.length > MAX_MESSAGE_CHAIN_DEPTH {
                let nearer: bool = match &best {
                    Some(b) => x.depth < b.depth,
                    None => true,
                };
                if nearer {
                    best = Some(x);
                }
            }
        }
        i += 1;
    }
    assert(w.take(i as int) =~= w);
    best
}

/// The chains of a file that are too long, at most one to a top-level statement.
pub fn check_message_chains(module: &Mod, source: &str, filepath: &str, package: &str) -> (r: Vec<
    Issue,
>)
    ensures
        issue_views(r@) == long_chains(*module, site_of(source@, filepath@, package@)),
{
    let site = Site::new(source, filepath, package);
    let body = module_body(module);
    let ghost f = long_chain(site@);
    let mut issues = none();
    let mut i: usize = 0;
    assert(issue_views(issues@) =~= body@.take(0).flat_map(f));
    while i < body.len()
        invariant
            i <= body@.len(),
            f == long_chain(site@),
            issue_views(issues@) == body@.take(i as int).flat_map(f),
        decreases body@.len() - i,
    {
        let ghost before = issue_views(issues@);
        proof {
            body@.lemma_flat_map_take_append(f, i as int);
            assert(before + seq![] =~= before);
        }
        if let Some(x) = find_long_chain(&body[i]) {
            let message = "method/attribute chain depth ".to_owned().concat(
                decimal(x.length as u128).as_str(),
            ).concat(" exceeds ").concat(
                decimal(MAX_MESSAGE_CHAIN_DEPTH as u128).as_str(),
            ).concat(" — split into intermediate variables");
            push_issue(
                &mut issues,
                site.report(x.start, Severity::Info, "message-chain", message),
            );
        }
        i += 1;
    }
    assert(body@.take(i as int) =~= body@);
    issues
}

} // verus!
