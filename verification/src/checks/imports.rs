//! Checks of what a file imports.

use crate::checks::common::{
    body_of, module_body, none, on_visits, one, report, site_of, Site, SiteView,
};
use crate::config::{layer_rules, layer_views, layers, slices};
use crate::models::{append_issues, issue_views, push_issue, Issue, IssueView, Severity};
use crate::order::{lemma_insert_by, sorted};
use crate::paths::{
    begins_with, file_name, file_name_of, module_parts, module_parts_of, strip_prefix, stripped,
};
use crate::syntax::{identifier_text, name_of, range_start, start_of};
use crate::text::{contains_text, same, split, split_on, starts_with, texts};
use crate::walk::{
    expressions, outset, seen, statements, visits, walk_stmts, Node, Seen, Visit,
};
use rustpython_ast::{
    Alias, Constant, Expr, Mod, Stmt, StmtAssign, StmtImport, StmtImportFrom,
};
use vstd::prelude::*;
use vstd::string::*;

verus! {

// ── Imported names ──────────────────────────────────────────────────────────

/// The name that an import binds: the one behind `as`, else its own.
pub open spec fn bound_text(a: &Alias) -> Seq<char> {
    match a.asname {
        Some(id) => identifier_text(id),
        None => identifier_text(a.name),
    }
}

/// The name that a part of an `import` statement binds: the first part of a dotted
/// one; `_` binds nothing.
pub open spec fn import_binding(n: &StmtImport, a: &Alias) -> Seq<(Seq<char>, u32)> {
    let name = split(bound_text(a), '.')[0];
    if name != "_"@ {
        seq![(name, range_start(n.range))]
    } else {
        seq![]
    }
}

/// The name that a part of a `from` import binds; `*` and `_` bind nothing.
pub open spec fn from_binding(n: &StmtImportFrom, a: &Alias) -> Seq<(Seq<char>, u32)> {
    let name = bound_text(a);
    if identifier_text(a.name) != "*"@ && name != "_"@ {
        seq![(name, range_start(n.range))]
    } else {
        seq![]
    }
}

/// `import_binding`, as a relation.
pub open spec fn each_import_binding(n: &StmtImport) -> spec_fn(Alias) -> Seq<(Seq<char>, u32)> {
    |a: Alias| import_binding(n, &a)
}

/// `from_binding`, as a relation.
pub open spec fn each_from_binding(n: &StmtImportFrom) -> spec_fn(Alias) -> Seq<(Seq<char>, u32)> {
    |a: Alias| from_binding(n, &a)
}

/// Whether a `from` import names a given module.
pub open spec fn is_from(n: &StmtImportFrom, module: Seq<char>) -> bool {
    n.module matches Some(id) && identifier_text(id) == module
}

/// The names that a visited import statement binds, each with the statement's
/// position; `from __future__` binds none.
pub open spec fn bindings(v: Seen) -> Seq<(Seq<char>, u32)> {
    match v.node {
        Node::Stmt(Stmt::Import(n)) => n.names@.flat_map(each_import_binding(n)),
        Node::Stmt(Stmt::ImportFrom(n)) => if is_from(n, "__future__"@) {
            seq![]
        } else {
            n.names@.flat_map(each_from_binding(n))
        },
        _ => seq![],
    }
}

/// `bindings`, as a relation.
pub open spec fn each_binding<'a>() -> spec_fn(Seen<'a>) -> Seq<(Seq<char>, u32)> {
    |v: Seen<'a>| bindings(v)
}

/// Whether a binding is of another name.
pub open spec fn other_than(name: Seq<char>) -> spec_fn((Seq<char>, u32)) -> bool {
    |b: (Seq<char>, u32)| b.0 != name
}

/// The bindings that are in force after all of `s`: of each name the last one.
pub open spec fn in_force(s: Seq<(Seq<char>, u32)>) -> Seq<(Seq<char>, u32)>
    decreases s.len(),
{
    if s.len() == 0 {
        seq![]
    } else {
        in_force(s.drop_last()).filter(other_than(s.last().0)).push(s.last())
    }
}

/// The names that the import statements of a module bind, those in match cases
/// among them, each with the position of the last statement that binds it.
pub open spec fn imported_names(module: Mod) -> Seq<(Seq<char>, u32)> {
    in_force(walk_stmts(body_of(module), statements(), outset()).flat_map(each_binding()))
}

/// What a list of bindings says.
pub open spec fn binding_views(v: Seq<(String, u32)>) -> Seq<(Seq<char>, u32)> {
    v.map_values(|b: (String, u32)| (b.0@, b.1))
}

/// Each name is in force once.
pub proof fn law_one_binding_in_force(s: Seq<(Seq<char>, u32)>)
    ensures
        forall|i: int, j: int|
            0 <= i < j < in_force(s).len() ==> (#[trigger] in_force(s)[i]).0
                != (#[trigger] in_force(s)[j]).0,
    decreases s.len(),
{
    if s.len() > 0 {
        let rest = in_force(s.drop_last());
        law_one_binding_in_force(s.drop_last());
        lemma_filter_keeps_distinct(rest, other_than(s.last().0));
        let kept = rest.filter(other_than(s.last().0));
        let now = in_force(s);
        assert forall|i: int, j: int| 0 <= i < j < now.len() implies (#[trigger] now[i]).0 != (
        #[trigger] now[j]).0 by {
            rest.lemma_filter_pred(other_than(s.last().0), i);
            if j < kept.len() {
                assert(kept[i].0 != kept[j].0);
            }
        }
    }
}

proof fn lemma_filter_keeps_distinct(
    s: Seq<(Seq<char>, u32)>,
    p: spec_fn((Seq<char>, u32)) -> bool,
)
    requires
        forall|i: int, j: int| 0 <= i < j < s.len() ==> (#[trigger] s[i]).0 != (#[trigger] s[j]).0,
    ensures
        forall|i: int, j: int|
            0 <= i < j < s.filter(p).len() ==> (#[trigger] s.filter(p)[i]).0 != (
            #[trigger] s.filter(p)[j]).0,
        forall|i: int|
            0 <= i < s.filter(p).len() ==> exists|k: int|
                0 <= k < s.len() && s[k] == #[trigger] s.filter(p)[i],
    decreases s.len(),
{
    reveal(Seq::filter);
    if s.len() > 0 {
        let rest = s.drop_last();
        assert forall|i: int, j: int| 0 <= i < j < rest.len() implies (#[trigger] rest[i]).0 != (
        #[trigger] rest[j]).0 by {
            assert(s[i].0 != s[j].0);
        }
        lemma_filter_keeps_distinct(rest, p);
        let kept = rest.filter(p);
        let now = s.filter(p);
        assert forall|i: int, j: int| 0 <= i < j < now.len() implies (#[trigger] now[i]).0 != (
        #[trigger] now[j]).0 by {
            if j < kept.len() {
                assert(kept[i].0 != kept[j].0);
            } else {
                let k = choose|k: int| 0 <= k < rest.len() && rest[k] == kept[i];
                assert(s[k].0 != s[s.len() - 1].0);
            }
        }
        assert forall|i: int| 0 <= i < now.len() implies exists|k: int|
            0 <= k < s.len() && s[k] == #[trigger] now[i] by {
            if i < kept.len() {
                let k = choose|k: int| 0 <= k < rest.len() && rest[k] == kept[i];
                assert(s[k] == now[i]);
            } else {
                assert(s[s.len() - 1] == now[i]);
            }
        }
    }
}

fn bound_name<'a>(a: &'a Alias) -> (r: &'a str)
    ensures
        r@ == bound_text(a),
{
    match &a.asname {
        Some(id) => name_of(id),
        None => name_of(&a.name),
    }
}

/// Brings a binding into force.
fn bind(v: &mut Vec<(String, u32)>, name: &str, pos: u32)
    ensures
        binding_views(final(v)@) == binding_views(old(v)@).filter(other_than(name@)).push(
            (name@, pos),
        ),
{
    let ghost all = binding_views(v@);
    let ghost p = other_than(name@);
    let mut kept: Vec<(String, u32)> = Vec::new();
    let mut i: usize = 0;
    proof {
        reveal(Seq::filter);
    }
    assert(binding_views(kept@) =~= all.take(0).filter(p));
    while i < v.len()
        invariant
            i <= v@.len(),
            *v == *old(v),
            all == binding_views(v@),
            p == other_than(name@),
            binding_views(kept@) == all.take(i as int).filter(p),
        decreases v@.len() - i,
    {
        let ghost before = binding_views(kept@);
        proof {
            reveal(Seq::filter);
            assert(all.take(i + 1).drop_last() =~= all.take(i as int));
            assert(all.take(i + 1).last() == (v@[i as int].0@, v@[i as int].1));
        }
        if !same(v[i].0.as_str(), name) {
            kept.push((v[i].0.clone(), v[i].1));
            assert(binding_views(kept@) =~= before.push((v@[i as int].0@, v@[i as int].1)));
        }
        i += 1;
    }
    assert(all.take(i as int) =~= all);
    let ghost before = binding_views(kept@);
    kept.push((name.to_owned(), pos));
    assert(binding_views(kept@) =~= before.push((name@, pos)));
    *v = kept;
}

/// Bringing a list of bindings into force one after the other.
proof fn lemma_in_force_append(s: Seq<(Seq<char>, u32)>, x: (Seq<char>, u32))
    ensures
        in_force(s + seq![x]) == in_force(s).filter(other_than(x.0)).push(x),
{
    assert((s + seq![x]).drop_last() =~= s);
}

fn bind_import(n: &StmtImport, v: &mut Vec<(String, u32)>, Ghost(s): Ghost<Seq<(Seq<char>, u32)>>)
    requires
        binding_views(old(v)@) == in_force(s),
    ensures
        binding_views(final(v)@) == in_force(s + n.names@.flat_map(each_import_binding(n))),
{
    let ghost f = each_import_binding(n);
    let pos: u32 = start_of(&n.range);
    let mut i: usize = 0;
    assert(s + n.names@.take(0).flat_map(f) =~= s);
    while i < n.names.len()
        invariant
            i <= n.names@.len(),
            f == each_import_binding(n),
            pos == range_start(n.range),
            binding_views(v@) == in_force(s + n.names@.take(i as int).flat_map(f)),
        decreases n.names@.len() - i,
    {
        let ghost so_far = s + n.names@.take(i as int).flat_map(f);
        proof {
            n.names@.lemma_flat_map_take_append(f, i as int);
            assert(s + n.names@.take(i + 1).flat_map(f) =~= so_far + f(n.names@[i as int]));
        }
        let pieces = split_on(bound_name(&n.names[i]), '.');
        assert(texts(pieces@)[0] == pieces@[0]@);
        let name = pieces[0].as_str();
        if !same(name, "_") {
            proof {
                lemma_in_force_append(so_far, (name@, pos));
            }
            bind(v, name, pos);
        } else {
            assert(so_far + seq![] =~= so_far);
        }
        i += 1;
    }
    assert(n.names@.take(i as int) =~= n.names@);
}

fn bind_from(n: &StmtImportFrom, v: &mut Vec<(String, u32)>, Ghost(s): Ghost<
    Seq<(Seq<char>, u32)>,
>)
    requires
        binding_views(old(v)@) == in_force(s),
    ensures
        binding_views(final(v)@) == in_force(s + n.names@.flat_map(each_from_binding(n))),
{
    let ghost f = each_from_binding(n);
    let pos: u32 = start_of(&n.range);
    let mut i: usize = 0;
    assert(s + n.names@.take(0).flat_map(f) =~= s);
    while i < n.names.len()
        invariant
            i <= n.names@.len(),
            f == each_from_binding(n),
            pos == range_start(n.range),
            binding_views(v@) == in_force(s + n.names@.take(i as int).flat_map(f)),
        decreases n.names@.len() - i,
    {
        let ghost so_far = s + n.names@.take(i as int).flat_map(f);
        proof {
            n.names@.lemma_flat_map_take_append(f, i as int);
            assert(s + n.names@.take(i + 1).flat_map(f) =~= so_far + f(n.names@[i as int]));
        }
        let name = bound_name(&n.names[i]);
        if !same(name_of(&n.names[i].name), "*") && !same(name, "_") {
            proof {
                lemma_in_force_append(so_far, (name@, pos));
            }
            bind(v, name, pos);
        } else {
            assert(so_far + seq![] =~= so_far);
        }
        i += 1;
    }
    assert(n.names@.take(i as int) =~= n.names@);
}

fn names_module(n: &StmtImportFrom, module: &str) -> (r: bool)
    ensures
        r == is_from(n, module@),
{
    match &n.module {
        Some(id) => same(name_of(id), module),
        None => false,
    }
}

/// The names that the import statements of a module bind, each with the position of
/// the last statement that binds it.
pub fn collect_imported_names(module: &Mod) -> (r: Vec<(String, u32)>)
    ensures
        binding_views(r@) == imported_names(*module),
{
    let all = visits(module_body(module), statements());
    let ghost w = walk_stmts(body_of(*module), statements(), outset());
    let ghost f = each_binding();
    let mut out: Vec<(String, u32)> = Vec::new();
    let mut i: usize = 0;
    assert(w.take(0).flat_map(f) =~= seq![]);
    assert(binding_views(out@) =~= in_force(w.take(0).flat_map(f)));
    while i < all.len()
        invariant
            i <= all@.len(),
            w == seen(all@),
            f == each_binding(),
            binding_views(out@) == in_force(w.take(i as int).flat_map(f)),
        decreases all@.len() - i,
    {
        let ghost so_far = w.take(i as int).flat_map(f);
        proof {
            w.lemma_flat_map_take_append(f, i as int);
            assert(w[i as int] == all@[i as int]@);
            assert(so_far + seq![] =~= so_far);
        }
        if let Node::Stmt(s) = all[i].node {
            match s {
                Stmt::Import(n) => bind_import(n, &mut out, Ghost(so_far)),
                Stmt::ImportFrom(n) => {
                    if !names_module(n, "__future__") {
                        bind_from(n, &mut out, Ghost(so_far));
                    }
                },
                _ => {},
            }
        }
        i += 1;
    }
    assert(w.take(i as int) =~= w);
    out
}

// ── Used names ──────────────────────────────────────────────────────────────

/// Whether an expression is the name `__all__`.
pub open spec fn is_all_name(e: &Expr) -> bool {
    e matches Expr::Name(n) && identifier_text(n.id) == "__all__"@
}

/// The text of a string literal.
pub open spec fn string_text(e: &Expr) -> Option<Seq<char>> {
    match e {
        Expr::Constant(c) => match c.value {
            Constant::Str(s) => Some(s@),
            _ => None,
        },
        _ => None,
    }
}

/// `string_text`, as a relation.
pub open spec fn each_string() -> spec_fn(Expr) -> Seq<Seq<char>> {
    |e: Expr|
        match string_text(&e) {
            Some(t) => seq![t],
            None => seq![],
        }
}

/// The elements of a list or tuple display.
pub open spec fn display_elements(e: &Expr) -> Seq<Expr> {
    match e {
        Expr::List(n) => n.elts@,
        Expr::Tuple(n) => n.elts@,
        _ => seq![],
    }
}

/// Whether an assignment declares what a module exports.
pub open spec fn declares_exports(n: &StmtAssign) -> bool {
    exists|i: int| 0 <= i < n.targets@.len() && is_all_name(&#[trigger] n.targets@[i])
}

/// The names that a visit refers to: a name that is read or written, or the names
/// listed in `__all__`.
pub open spec fn uses(v: Seen) -> Seq<Seq<char>> {
    match v.node {
        Node::Expr(Expr::Name(n)) => seq![identifier_text(n.id)],
        Node::Stmt(Stmt::Assign(n)) => if declares_exports(n) {
            display_elements(&*n.value).flat_map(each_string())
        } else {
            seq![]
        },
        _ => seq![],
    }
}

/// `uses`, as a relation.
pub open spec fn each_use<'a>() -> spec_fn(Seen<'a>) -> Seq<Seq<char>> {
    |v: Seen<'a>| uses(v)
}

/// Every name that a module refers to, directly or in `__all__`.
pub open spec fn used_names(module: Mod) -> Seq<Seq<char>> {
    walk_stmts(body_of(module), expressions(), outset()).flat_map(each_use())
}

fn string_of<'a>(e: &'a Expr) -> (r: Option<&'a str>)
    ensures
        match r {
            Some(t) => string_text(e) == Some(t@),
            None => string_text(e) is None,
        },
{
    match e {
        Expr::Constant(c) => match &c.value {
            Constant::Str(s) => Some(s.as_str()),
            _ => None,
        },
        _ => None,
    }
}

fn has_all_target(targets: &Vec<Expr>) -> (r: bool)
    ensures
        r == exists|i: int| 0 <= i < targets@.len() && is_all_name(&#[trigger] targets@[i]),
{
    let mut i: usize = 0;
    while i < targets.len()
        invariant
            i <= targets@.len(),
            forall|j: int| 0 <= j < i ==> !is_all_name(&#[trigger] targets@[j]),
        decreases targets@.len() - i,
    {
        if let Expr::Name(n) = &targets[i] {
            if same(name_of(&n.id), "__all__") {
                assert(is_all_name(&targets@[i as int]));
                return true;
            }
        }
        i += 1;
    }
    false
}

/// The texts of the string literals in a list.
fn strings_in(v: &Vec<Expr>) -> (r: Vec<String>)
    ensures
        texts(r@) == v@.flat_map(each_string()),
{
    let ghost f = each_string();
    let mut out: Vec<String> = Vec::new();
    let mut i: usize = 0;
    assert(texts(out@) =~= v@.take(0).flat_map(f));
    while i < v.len()
        invariant
            i <= v@.len(),
            f == each_string(),
            texts(out@) == v@.take(i as int).flat_map(f),
        decreases v@.len() - i,
    {
        let ghost before = texts(out@);
        proof {
            v@.lemma_flat_map_take_append(f, i as int);
        }
        match string_of(&v[i]) {
            Some(t) => {
                out.push(t.to_owned());
                assert(texts(out@) =~= before + seq![t@]);
            },
            None => {
                assert(before + seq![] =~= before);
            },
        }
        i += 1;
    }
    assert(v@.take(i as int) =~= v@);
    out
}

/// Every name that a module refers to, directly or in `__all__`.
pub fn collect_used_names(module: &Mod) -> (r: Vec<String>)
    ensures
        texts(r@) == used_names(*module),
{
    let all = visits(module_body(module), expressions());
    let ghost w = walk_stmts(body_of(*module), expressions(), outset());
    let ghost f = each_use();
    let mut out: Vec<String> = Vec::new();
    let mut i: usize = 0;
    assert(texts(out@) =~= w.take(0).flat_map(f));
    while i < all.len()
        invariant
            i <= all@.len(),
            w == seen(all@),
            f == each_use(),
            texts(out@) == w.take(i as int).flat_map(f),
        decreases all@.len() - i,
    {
        let ghost before = texts(out@);
        proof {
            w.lemma_flat_map_take_append(f, i as int);
            assert(w[i as int] == all@[i as int]@);
            assert(before + seq![] =~= before);
        }
        match all[i].node {
            Node::Expr(e) => {
                if let Expr::Name(n) = e {
                    out.push(name_of(&n.id).to_owned());
                    assert(texts(out@) =~= before + seq![identifier_text(n.id)]);
                }
            },
            Node::Stmt(s) => {
                if let Stmt::Assign(n) = s {
                    if has_all_target(&n.targets) {
                        let mut more: Vec<String> = match &*n.value {
                            Expr::List(l) => strings_in(&l.elts),
                            Expr::Tuple(t) => strings_in(&t.elts),
                            _ => Vec::new(),
                        };
                        let ghost named = texts(more@);
                        assert(named =~= display_elements(&*n.value).flat_map(each_string()));
                        out.append(&mut more);
                        assert(texts(out@) =~= before + named);
                    }
                }
            },
            _ => {},
        }
        i += 1;
    }
    assert(w.take(i as int) =~= w);
    out
}

// ── Unused imports ──────────────────────────────────────────────────────────

/// The order of bindings by position.
pub open spec fn by_position() -> spec_fn((Seq<char>, u32), (Seq<char>, u32)) -> bool {
    |a: (Seq<char>, u32), b: (Seq<char>, u32)| a.1 <= b.1
}

/// An import that nothing refers to.
pub open spec fn unused_import(
    site: SiteView,
    used: Seq<Seq<char>>,
    b: (Seq<char>, u32),
) -> Seq<IssueView> {
    if used.contains(b.0) {
        seq![]
    } else {
        seq![
            report(
                site,
                b.1,
                Severity::Warning,
                "unused-import"@,
                "'"@ + b.0 + "' imported but never used"@,
            ),
        ]
    }
}

/// `unused_import`, as a relation.
pub open spec fn each_unused_import(site: SiteView, used: Seq<Seq<char>>) -> spec_fn(
    (Seq<char>, u32),
) -> Seq<IssueView> {
    |b: (Seq<char>, u32)| unused_import(site, used, b)
}

/// The imports of a module that nothing in it refers to, in the order of their
/// positions; an `__init__.py` may import what it does not use.
pub open spec fn unused_imports(module: Mod, site: SiteView) -> Seq<IssueView> {
    if file_name(site.file) == Some("__init__.py"@) {
        seq![]
    } else {
        sorted(imported_names(module), by_position()).flat_map(
            each_unused_import(site, used_names(module)),
        )
    }
}

fn sort_bindings(v: &Vec<(String, u32)>) -> (r: Vec<(String, u32)>)
    ensures
        binding_views(r@) == sorted(binding_views(v@), by_position()),
{
    let ghost le = by_position();
    let ghost all = binding_views(v@);
    let mut out: Vec<(String, u32)> = Vec::new();
    let mut i: usize = 0;
    assert(binding_views(out@) =~= sorted(all.take(0), le));
    while i < v.len()
        invariant
            i <= v@.len(),
            out@.len() == i,
            all == binding_views(v@),
            le == by_position(),
            binding_views(out@) == sorted(all.take(i as int), le),
        decreases v@.len() - i,
    {
        let ghost before = binding_views(out@);
        let ghost x = (v@[i as int].0@, v@[i as int].1);
        let mut pos: usize = out.len();
        while pos > 0 && out[pos - 1].1 > v[i].1
            invariant
                i < v@.len(),
                x == (v@[i as int].0@, v@[i as int].1),
                before == binding_views(out@),
                le == by_position(),
                pos <= out@.len(),
                forall|k: int| pos <= k < before.len() ==> !le(#[trigger] before[k], x),
            decreases pos,
        {
            pos -= 1;
        }
        proof {
            lemma_insert_by(before, x, le, pos as int);
            assert(all.take(i + 1).drop_last() =~= all.take(i as int));
            assert(all.take(i + 1).last() == x);
        }
        out.insert(pos, (v[i].0.clone(), v[i].1));
        assert(binding_views(out@) =~= before.insert(pos as int, x));
        i += 1;
    }
    assert(all.take(i as int) =~= all);
    out
}

/// The imports of a module that nothing in it refers to.
pub fn check_unused_imports(module: &Mod, source: &str, filepath: &str, package: &str) -> (r: Vec<
    Issue,
>)
    ensures
        issue_views(r@) == unused_imports(*module, site_of(source@, filepath@, package@)),
{
    let is_init: bool = match file_name_of(filepath) {
        Some(name) => same(name.as_str(), "__init__.py"),
        None => false,
    };
    if is_init {
        return none();
    }
    let site = Site::new(source, filepath, package);
    let imported = collect_imported_names(module);
    let used = collect_used_names(module);
    let entries = sort_bindings(&imported);
    let ghost all = binding_views(entries@);
    let ghost f = each_unused_import(site@, texts(used@));
    let mut issues = none();
    let mut i: usize = 0;
    assert(issue_views(issues@) =~= all.take(0).flat_map(f));
    while i < entries.len()
        invariant
            i <= entries@.len(),
            all == binding_views(entries@),
            f == each_unused_import(site@, texts(used@)),
            issue_views(issues@) == all.take(i as int).flat_map(f),
        decreases entries@.len() - i,
    {
        let ghost before = issue_views(issues@);
        proof {
            all.lemma_flat_map_take_append(f, i as int);
            assert(all[i as int] == (entries@[i as int].0@, entries@[i as int].1));
        }
        if !contains_text(&used, entries[i].0.as_str()) {
            let message = "'".to_owned().concat(entries[i].0.as_str()).concat(
                "' imported but never used",
            );
            push_issue(
                &mut issues,
                site.report(entries[i].1, Severity::Warning, "unused-import", message),
            );
        } else {
            assert(before + seq![] =~= before);
        }
        i += 1;
    }
    assert(all.take(i as int) =~= all);
    issues
}

// ── Star imports ────────────────────────────────────────────────────────────

/// The module that a `from` import names, or nothing.
pub open spec fn from_module(n: &StmtImportFrom) -> Seq<char> {
    match n.module {
        Some(id) => identifier_text(id),
        None => ""@,
    }
}

/// A `*` in a `from` import.
pub open spec fn star(site: SiteView, n: &StmtImportFrom, a: &Alias) -> Seq<IssueView> {
    if identifier_text(a.name) == "*"@ {
        seq![
            report(
                site,
                range_start(n.range),
                Severity::Warning,
                "star-import"@,
                "Star import from '"@ + from_module(n) + "' — import specific names instead"@,
            ),
        ]
    } else {
        seq![]
    }
}

/// `star` for the names of one import, as a relation.
pub open spec fn each_star(site: SiteView, n: &StmtImportFrom) -> spec_fn(Alias) -> Seq<IssueView> {
    |a: Alias| star(site, n, &a)
}

/// The stars of a visited `from` import.
pub open spec fn star_import(site: SiteView, v: Seen) -> Seq<IssueView> {
    match v.node {
        Node::Stmt(Stmt::ImportFrom(n)) => n.names@.flat_map(each_star(site, n)),
        _ => seq![],
    }
}

fn module_of<'a>(n: &'a StmtImportFrom) -> (r: &'a str)
    ensures
        r@ == from_module(n),
{
    match &n.module {
        Some(id) => name_of(id),
        None => "",
    }
}

fn star_issues(site: &Site, n: &StmtImportFrom) -> (r: Vec<Issue>)
    ensures
        issue_views(r@) == n.names@.flat_map(each_star(site@, n)),
{
    let ghost f = each_star(site@, n);
    let mut issues = none();
    let mut i: usize = 0;
    assert(issue_views(issues@) =~= n.names@.take(0).flat_map(f));
    while i < n.names.len()
        invariant
            i <= n.names@.len(),
            f == each_star(site@, n),
            issue_views(issues@) == n.names@.take(i as int).flat_map(f),
        decreases n.names@.len() - i,
    {
        let ghost before = issue_views(issues@);
        proof {
            n.names@.lemma_flat_map_take_append(f, i as int);
        }
        if same(name_of(&n.names[i].name), "*") {
            let message = "Star import from '".to_owned().concat(module_of(n)).concat(
                "' — import specific names instead",
            );
            push_issue(
                &mut issues,
                site.report(start_of(&n.range), Severity::Warning, "star-import", message),
            );
        } else {
            assert(before + seq![] =~= before);
        }
        i += 1;
    }
    assert(n.names@.take(i as int) =~= n.names@);
    issues
}

fn collect_star_imports(site: &Site, v: &Visit) -> (r: Vec<Issue>)
    ensures
        issue_views(r@) == star_import(site@, v@),
{
    if let Node::Stmt(s) = v.node {
        if let Stmt::ImportFrom(n) = s {
            return star_issues(site, n);
        }
    }
    none()
}

/// `star_import` for one visit, as a relation.
pub open spec fn each_star_import<'a>(site: SiteView) -> spec_fn(Seen<'a>) -> Seq<IssueView> {
    |v: Seen<'a>| star_import(site, v)
}

/// The star imports of a file.
pub open spec fn star_imports(module: Mod, site: SiteView) -> Seq<IssueView> {
    walk_stmts(body_of(module), statements(), outset()).flat_map(each_star_import(site))
}

/// The star imports of a file.
pub fn check_star_imports(module: &Mod, source: &str, filepath: &str, package: &str) -> (r: Vec<Issue>)
    ensures
        issue_views(r@) == star_imports(*module, site_of(source@, filepath@, package@)),
{
    let site = Site::new(source, filepath, package);
    let check = |v: &Visit| -> (r: Vec<Issue>)
        ensures
            issue_views(r@) == star_import(site@, v@),
        { collect_star_imports(&site, v) };
    on_visits(module, statements(), check, Ghost(each_star_import(site@)))
}

// ── Layers ──────────────────────────────────────────────────────────────────

/// The module that a visited import statement names first, with its position.
pub open spec fn named_module(v: Seen) -> Seq<(Seq<char>, u32)> {
    match v.node {
        Node::Stmt(Stmt::Import(n)) => if n.names@.len() > 0 {
            seq![(identifier_text(n.names@[0].name), range_start(n.range))]
        } else {
            seq![]
        },
        Node::Stmt(Stmt::ImportFrom(n)) => match n.module {
            Some(id) => seq![(identifier_text(id), range_start(n.range))],
            None => seq![],
        },
        _ => seq![],
    }
}

/// `named_module`, as a relation.
pub open spec fn each_named_module<'a>() -> spec_fn(Seen<'a>) -> Seq<(Seq<char>, u32)> {
    |v: Seen<'a>| named_module(v)
}

/// The modules that the import statements of a module name.
pub open spec fn named_modules(module: Mod) -> Seq<(Seq<char>, u32)> {
    walk_stmts(body_of(module), statements(), outset()).flat_map(each_named_module())
}

/// Whether a name begins with one of several texts.
pub open spec fn begins_with_any(name: Seq<char>, prefixes: Seq<Seq<char>>) -> bool {
    exists|i: int| 0 <= i < prefixes.len() && (#[trigger] prefixes[i]).is_prefix_of(name)
}

/// An import that a layer must not have.
pub open spec fn forbidden_import(
    site: SiteView,
    rel: Seq<char>,
    forbidden: Seq<Seq<char>>,
    b: (Seq<char>, u32),
) -> Seq<IssueView> {
    if begins_with_any(b.0, forbidden) {
        seq![
            report(
                site,
                b.1,
                Severity::Error,
                "layer-violation"@,
                "Module '"@ + rel + "' imports '"@ + b.0
                    + "' — forbidden by layer rules; depend on an abstraction (e.g. a typing.Protocol) the lower layer implements, injected as a constructor/function parameter instead of imported directly (Dependency Inversion Principle / Dependency Injection)"@,
            ),
        ]
    } else {
        seq![]
    }
}

/// `forbidden_import`, as a relation.
pub open spec fn each_forbidden_import(
    site: SiteView,
    rel: Seq<char>,
    forbidden: Seq<Seq<char>>,
) -> spec_fn((Seq<char>, u32)) -> Seq<IssueView> {
    |b: (Seq<char>, u32)| forbidden_import(site, rel, forbidden, b)
}

/// The imports that one layer rule forbids to a file.
pub open spec fn broken_layer(
    site: SiteView,
    rel: Seq<char>,
    imports: Seq<(Seq<char>, u32)>,
) -> spec_fn((Seq<char>, Seq<Seq<char>>)) -> Seq<IssueView> {
    |rule: (Seq<char>, Seq<Seq<char>>)|
        if rule.0.is_prefix_of(rel) {
            imports.flat_map(each_forbidden_import(site, rel, rule.1))
        } else {
            seq![]
        }
}

/// The imports of a file that the layer rules of its package forbid.
pub open spec fn layer_violations(module: Mod, site: SiteView, pkg_root: Seq<char>) -> Seq<
    IssueView,
> {
    match strip_prefix(site.file, pkg_root) {
        Some(rel) => layers(site.package).flat_map(broken_layer(site, rel, named_modules(module))),
        None => seq![],
    }
}

fn collect_named_modules(module: &Mod) -> (r: Vec<(String, u32)>)
    ensures
        binding_views(r@) == named_modules(*module),
{
    let all = visits(module_body(module), statements());
    let ghost w = walk_stmts(body_of(*module), statements(), outset());
    let ghost f = each_named_module();
    let mut out: Vec<(String, u32)> = Vec::new();
    let mut i: usize = 0;
    assert(binding_views(out@) =~= w.take(0).flat_map(f));
    while i < all.len()
        invariant
            i <= all@.len(),
            w == seen(all@),
            f == each_named_module(),
            binding_views(out@) == w.take(i as int).flat_map(f),
        decreases all@.len() - i,
    {
        let ghost before = binding_views(out@);
        proof {
            w.lemma_flat_map_take_append(f, i as int);
            assert(w[i as int] == all@[i as int]@);
            assert(before + seq![] =~= before);
        }
        if let Node::Stmt(s) = all[i].node {
            match s {
                Stmt::Import(n) => {
                    if n.names.len() > 0 {
                        let name = name_of(&n.names[0].name);
                        let pos: u32 = start_of(&n.range);
                        out.push((name.to_owned(), pos));
                        assert(binding_views(out@) =~= before + seq![(name@, pos)]);
                    }
                },
                Stmt::ImportFrom(n) => {
                    if let Some(id) = &n.module {
                        let name = name_of(id);
                        let pos: u32 = start_of(&n.range);
                        out.push((name.to_owned(), pos));
                        assert(binding_views(out@) =~= before + seq![(name@, pos)]);
                    }
                },
                _ => {},
            }
        }
        i += 1;
    }
    assert(w.take(i as int) =~= w);
    out
}

fn starts_with_any(name: &str, prefixes: &Vec<&'static str>) -> (r: bool)
    ensures
        r == begins_with_any(name@, slices(prefixes@)),
{
    let mut i: usize = 0;
    while i < prefixes.len()
        invariant
            i <= prefixes@.len(),
            forall|j: int| 0 <= j < i ==> !(#[trigger] slices(prefixes@)[j]).is_prefix_of(name@),
        decreases prefixes@.len() - i,
    {
        assert(slices(prefixes@)[i as int] == prefixes@[i as int]@);
        if starts_with(name, prefixes[i]) {
            return true;
        }
        i += 1;
    }
    false
}

fn broken_layer_issues(
    site: &Site,
    rel: &str,
    imports: &Vec<(String, u32)>,
    forbidden: &Vec<&'static str>,
) -> (r: Vec<Issue>)
    ensures
        issue_views(r@) == binding_views(imports@).flat_map(
            each_forbidden_import(site@, rel@, slices(forbidden@)),
        ),
{
    let ghost all = binding_views(imports@);
    let ghost f = each_forbidden_import(site@, rel@, slices(forbidden@));
    let mut issues = none();
    let mut i: usize = 0;
    assert(issue_views(issues@) =~= all.take(0).flat_map(f));
    while i < imports.len()
        invariant
            i <= imports@.len(),
            all == binding_views(imports@),
            f == each_forbidden_import(site@, rel@, slices(forbidden@)),
            issue_views(issues@) == all.take(i as int).flat_map(f),
        decreases imports@.len() - i,
    {
        let ghost before = issue_views(issues@);
        proof {
            all.lemma_flat_map_take_append(f, i as int);
            assert(all[i as int] == (imports@[i as int].0@, imports@[i as int].1));
        }
        let name = imports[i].0.as_str();
        if starts_with_any(name, forbidden) {
            let message = "Module '".to_owned().concat(rel).concat("' imports '").concat(
                name,
            ).concat(
                "' — forbidden by layer rules; depend on an abstraction (e.g. a typing.Protocol) the lower layer implements, injected as a constructor/function parameter instead of imported directly (Dependency Inversion Principle / Dependency Injection)",
            );
            push_issue(
                &mut issues,
                site.report(imports[i].1, Severity::Error, "layer-violation", message),
            );
        } else {
            assert(before + seq![] =~= before);
        }
        i += 1;
    }
    assert(all.take(i as int) =~= all);
    issues
}

/// The imports of a file that the layer rules of its package forbid.
pub fn check_layer_violations(
    module: &Mod,
    source: &str,
    filepath: &str,
    package: &str,
    pkg_root: &str,
) -> (r: Vec<Issue>)
    ensures
        issue_views(r@) == layer_violations(
            *module,
            site_of(source@, filepath@, package@),
            pkg_root@,
        ),
{
    let rel = match stripped(filepath, pkg_root) {
        Some(rel) => rel,
        None => {
            return none();
        },
    };
    let rules = layer_rules(package);
    let site = Site::new(source, filepath, package);
    let imports = collect_named_modules(module);
    let ghost all = layer_views(rules@);
    let ghost f = broken_layer(site@, rel@, binding_views(imports@));
    let mut issues = none();
    let mut i: usize = 0;
    assert(issue_views(issues@) =~= all.take(0).flat_map(f));
    while i < rules.len()
        invariant
            i <= rules@.len(),
            all == layer_views(rules@),
            f == broken_layer(site@, rel@, binding_views(imports@)),
            issue_views(issues@) == all.take(i as int).flat_map(f),
        decreases rules@.len() - i,
    {
        let ghost before = issue_views(issues@);
        proof {
            all.lemma_flat_map_take_append(f, i as int);
            assert(all[i as int] == (rules@[i as int].prefix@, slices(rules@[i as int].forbidden@)));
        }
        if starts_with(rel.as_str(), rules[i].prefix) {
            append_issues(
                &mut issues,
                broken_layer_issues(&site, rel.as_str(), &imports, &rules[i].forbidden),
            );
        } else {
            assert(before + seq![] =~= before);
        }
        i += 1;
    }
    assert(all.take(i as int) =~= all);
    issues
}

// ── Transports ──────────────────────────────────────────────────────────────

/// Whether a package is a library that must not depend on a transport.
pub open spec fn is_library(package: Seq<char>) -> bool {
    package == "etl-core"@ || package == "boti"@ || package == "boti-data"@ || package
        == "boti-dask"@
}

/// Whether a top-level module is a transport.
pub open spec fn is_transport(top: Seq<char>) -> bool {
    top == "fastapi"@ || top == "starlette"@ || top == "httpx"@ || top == "flask"@ || top
        == "django"@
}

/// A `from` import of a transport.
pub open spec fn transport_import(site: SiteView, v: Seen) -> Seq<IssueView> {
    match v.node {
        Node::Stmt(Stmt::ImportFrom(n)) => match n.module {
            Some(id) => {
                let top = split(identifier_text(id), '.')[0];
                if is_transport(top) {
                    seq![
                        report(
                            site,
                            range_start(n.range),
                            Severity::Error,
                            "transport-in-library"@,
                            "Library imports transport module '"@ + top
                                + "' — violates G9; depend on an abstraction (e.g. a typing.Protocol) instead of the concrete transport, injected as a parameter rather than imported directly (Dependency Inversion Principle / Dependency Injection)"@,
                        ),
                    ]
                } else {
                    seq![]
                }
            },
            None => seq![],
        },
        _ => seq![],
    }
}

/// `transport_import`, as a relation.
pub open spec fn each_transport_import<'a>(site: SiteView) -> spec_fn(Seen<'a>) -> Seq<IssueView> {
    |v: Seen<'a>| transport_import(site, v)
}

/// The transports that a library imports.
pub open spec fn transport_imports(module: Mod, site: SiteView) -> Seq<IssueView> {
    if is_library(site.package) {
        walk_stmts(body_of(module), statements(), outset()).flat_map(each_transport_import(site))
    } else {
        seq![]
    }
}

fn transport_issues(site: &Site, v: &Visit) -> (r: Vec<Issue>)
    ensures
        issue_views(r@) == transport_import(site@, v@),
{
    if let Node::Stmt(s) = v.node {
        if let Stmt::ImportFrom(n) = s {
            if let Some(id) = &n.module {
                let pieces = split_on(name_of(id), '.');
                assert(texts(pieces@)[0] == pieces@[0]@);
                let top = pieces[0].as_str();
                if same(top, "fastapi") || same(top, "starlette") || same(top, "httpx") || same(
                    top,
                    "flask",
                ) || same(top, "django") {
                    let message = "Library imports transport module '".to_owned().concat(
                        top,
                    ).concat(
                        "' — violates G9; depend on an abstraction (e.g. a typing.Protocol) instead of the concrete transport, injected as a parameter rather than imported directly (Dependency Inversion Principle / Dependency Injection)",
                    );
                    return one(
                        site.report(
                            start_of(&n.range),
                            Severity::Error,
                            "transport-in-library",
                            message,
                        ),
                    );
                }
            }
        }
    }
    none()
}

/// The transports that a library imports.
pub fn check_transport_in_library(
    module: &Mod,
    source: &str,
    filepath: &str,
    package: &str,
) -> (r: Vec<Issue>)
    ensures
        issue_views(r@) == transport_imports(*module, site_of(source@, filepath@, package@)),
{
    if !(same(package, "etl-core") || same(package, "boti") || same(package, "boti-data") || same(
        package,
        "boti-dask",
    )) {
        return none();
    }
    let site = Site::new(source, filepath, package);
    let check = |v: &Visit| -> (r: Vec<Issue>)
        ensures
            issue_views(r@) == transport_import(site@, v@),
        { transport_issues(&site, v) };
    on_visits(module, statements(), check, Ghost(each_transport_import(site@)))
}

// ── Parent imports ──────────────────────────────────────────────────────────

/// Whether a dotted module name is that of a package around the module `parts`.
pub open spec fn is_around(parts: Seq<Seq<char>>, module: Seq<char>) -> bool {
    let pieces = split(module, '.');
    pieces.len() < parts.len() && pieces.is_prefix_of(parts)
}

/// A `from` import of a package around the importing module.
pub open spec fn parent_import(site: SiteView, parts: Seq<Seq<char>>) -> spec_fn(Stmt) -> Seq<
    IssueView,
> {
    |s: Stmt|
        match s {
            Stmt::ImportFrom(n) => match n.module {
                Some(id) => if is_around(parts, identifier_text(id)) {
                    seq![
                        report(
                            site,
                            range_start(n.range),
                            Severity::Warning,
                            "potential-circular-import"@,
                            "Child module imports parent '"@ + identifier_text(id)
                                + "' — potential circular dependency; extract a shared abstraction (e.g. a typing.Protocol) both sides can depend on, and inject it instead of importing directly to break the cycle (Dependency Inversion Principle / Dependency Injection)"@,
                        ),
                    ]
                } else {
                    seq![]
                },
                None => seq![],
            },
            _ => seq![],
        }
}

/// The packages around a module that its own top-level statements import from.
pub open spec fn parent_imports(module: Mod, site: SiteView, pkg_root: Seq<char>) -> Seq<IssueView> {
    match module_parts(pkg_root, site.file) {
        Some(parts) => body_of(module).flat_map(parent_import(site, parts)),
        None => seq![],
    }
}

/// The packages around a module that its own top-level statements import from.
pub fn check_circular_imports(
    module: &Mod,
    source: &str,
    filepath: &str,
    package: &str,
    pkg_root: &str,
) -> (r: Vec<Issue>)
    ensures
        issue_views(r@) == parent_imports(
            *module,
            site_of(source@, filepath@, package@),
            pkg_root@,
        ),
{
    let parts = match module_parts_of(pkg_root, filepath) {
        Some(parts) => parts,
        None => {
            return none();
        },
    };
    let site = Site::new(source, filepath, package);
    let body = module_body(module);
    let ghost f = parent_import(site@, texts(parts@));
    let mut issues = none();
    let mut i: usize = 0;
    assert(issue_views(issues@) =~= body@.take(0).flat_map(f));
    while i < body.len()
        invariant
            i <= body@.len(),
            f == parent_import(site@, texts(parts@)),
            issue_views(issues@) == body@.take(i as int).flat_map(f),
        decreases body@.len() - i,
    {
        let ghost before = issue_views(issues@);
        proof {
            body@.lemma_flat_map_take_append(f, i as int);
            assert(before + seq![] =~= before);
        }
        if let Stmt::ImportFrom(n) = &body[i] {
            if let Some(id) = &n.module {
                let name = name_of(id);
                let pieces = split_on(name, '.');
                if pieces.len() < parts.len() && begins_with(&parts, &pieces) {
                    let message = "Child module imports parent '".to_owned().concat(name).concat(
                        "' — potential circular dependency; extract a shared abstraction (e.g. a typing.Protocol) both sides can depend on, and inject it instead of importing directly to break the cycle (Dependency Inversion Principle / Dependency Injection)",
                    );
                    push_issue(
                        &mut issues,
                        site.report(
                            start_of(&n.range),
                            Severity::Warning,
                            "potential-circular-import",
                            message,
                        ),
                    );
                }
            }
        }
        i += 1;
    }
    assert(body@.take(i as int) =~= body@);
    issues
}

} // verus!
