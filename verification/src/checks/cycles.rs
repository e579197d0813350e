//! Import cycles: modules of a package that, along their imports, come to depend on
//! themselves.

use crate::checks::common::{body_of, module_body, none};
use crate::checks::package_level::ParsedFile;
use crate::config::{allowed_import_prefix, own_prefix};
use crate::graph::{
    cycles_in, edge_views, find_cycles, is_cycle, law_cycles_are_found,
    law_found_cycles_are_cycles, linked, lists,
};
use crate::models::{finding, issue, issue_views, push_issue, Issue, IssueView, Severity};
use crate::order::lemma_flat_map_contains;
use crate::paths::{
    components, last_dot, module_parts, module_parts_of, parent_components, path_parts,
    stem as stem_name, without_extension,
};
use crate::syntax::{identifier_text, int_of, int_value, name_of};
use crate::text::{
    join, joined, joined_range, law_pieces_join_back, law_split_at_a_separator,
    law_whole_without_a_separator, same, split, split_on, starts_with, texts,
};
use crate::walk::{outset, seen, visits, walk_stmts, Coverage, KeywordValues, Node, Seen};
use crate::within::{lemma_run_statements_are_found, runs_on_import};
use rustpython_ast::{Alias, Stmt, StmtImportFrom};
use vstd::prelude::*;
use vstd::string::*;

verus! {

// ── Module names ────────────────────────────────────────────────────────────

/// The parts of a file's dotted name: its path below the directory around the
/// package, or its whole path where it does not lie there.
pub open spec fn file_parts(pkg_root: Seq<char>, path: Seq<char>) -> Seq<Seq<char>> {
    match module_parts(pkg_root, path) {
        Some(parts) => parts,
        None => without_extension(components(path)),
    }
}

/// The dotted name of a module: an `__init__` file is the package itself.
pub open spec fn module_name(parts: Seq<Seq<char>>) -> Seq<char> {
    if parts.len() > 0 && parts.last() == "__init__"@ {
        join(parts.drop_last(), "."@)
    } else {
        join(parts, "."@)
    }
}

/// The dotted name of the package around a module.
pub open spec fn package_name(parts: Seq<Seq<char>>) -> Seq<char> {
    if parts.len() > 0 {
        join(parts.drop_last(), "."@)
    } else {
        seq![]
    }
}

/// The dotted names of a file's module and of the package around it.
pub fn module_and_package_for(pkg_root: &str, filepath: &str) -> (r: (String, String))
    ensures
        r.0@ == module_name(file_parts(pkg_root@, filepath@)),
        r.1@ == package_name(file_parts(pkg_root@, filepath@)),
{
    let parts = match module_parts_of(pkg_root, filepath) {
        Some(parts) => parts,
        None => path_parts(filepath),
    };
    let ghost all = texts(parts@);
    let count: usize = parts.len();
    if count == 0 {
        let empty = String::new();
        assert(empty@ =~= seq![]);
        return (joined(&parts, "."), empty);
    }
    let package = joined_range(&parts, 0, count - 1, ".");
    assert(all.subrange(0, count - 1) =~= all.drop_last());
    assert(all.last() == parts@[count - 1]@);
    if same(parts[count - 1].as_str(), "__init__") {
        (package.clone(), package)
    } else {
        (joined(&parts, "."), package)
    }
}

// ── Imports ─────────────────────────────────────────────────────────────────

/// A dotted name below a package.
pub open spec fn under(base: Seq<char>, name: Seq<char>) -> Seq<char> {
    if base.len() == 0 {
        name
    } else {
        base + "."@ + name
    }
}

fn name_under(base: &str, name: &str) -> (r: String)
    ensures
        r@ == under(base@, name@),
{
    if base.unicode_len() == 0 {
        name.to_owned()
    } else {
        base.to_owned().concat(".").concat(name)
    }
}

/// The package that a relative import of the given level counts from: one dot is the
/// package itself, each further dot the package around.
pub open spec fn base_package(package: Seq<char>, level: nat) -> Seq<char> {
    let parts: Seq<Seq<char>> = if package.len() == 0 {
        seq![]
    } else {
        split(package, '.')
    };
    let up = level - 1;
    if up <= parts.len() {
        join(parts.take(parts.len() - up), "."@)
    } else {
        join(parts.take(0), "."@)
    }
}

fn base_of(package: &str, level: usize) -> (r: String)
    requires
        level > 0,
    ensures
        r@ == base_package(package@, level as nat),
{
    let parts: Vec<String> = if package.unicode_len() == 0 {
        Vec::new()
    } else {
        split_on(package, '.')
    };
    let ghost all = if package@.len() == 0 {
        seq![]
    } else {
        split(package@, '.')
    };
    assert(texts(parts@) =~= all);
    let up: usize = level - 1;
    let count: usize = parts.len();
    let kept: usize = if up <= count {
        count - up
    } else {
        0
    };
    assert(all.subrange(0, kept as int) =~= all.take(kept as int));
    joined_range(&parts, 0, kept, ".")
}

/// The level of a `from` import: the number of its leading dots.
pub open spec fn import_level(n: &StmtImportFrom) -> nat {
    match n.level {
        Some(level) => int_value(level) as nat,
        None => 0,
    }
}

/// The names behind `import`.
pub open spec fn alias_names(s: Seq<Alias>) -> Seq<Seq<char>> {
    s.map_values(|a: Alias| identifier_text(a.name))
}

/// The modules that a `from` import of a package's module depends on.
pub open spec fn from_targets(package: Seq<char>, n: &StmtImportFrom) -> Seq<Seq<char>> {
    let level = import_level(n);
    match n.module {
        Some(m) => if level == 0 {
            seq![identifier_text(m)]
        } else {
            seq![under(base_package(package, level), identifier_text(m))]
        },
        None => if level == 0 {
            seq![]
        } else {
            let base = base_package(package, level);
            alias_names(n.names@).map_values(|t: Seq<char>| under(base, t))
        },
    }
}

fn names_of(list: &Vec<Alias>) -> (r: Vec<String>)
    ensures
        texts(r@) == alias_names(list@),
{
    let mut out: Vec<String> = Vec::new();
    let mut i: usize = 0;
    while i < list.len()
        invariant
            i <= list@.len(),
            texts(out@) == alias_names(list@.take(i as int)),
        decreases list@.len() - i,
    {
        let ghost before = texts(out@);
        let name = name_of(&list[i].name).to_owned();
        out.push(name);
        assert(texts(out@) =~= before.push(name@));
        assert(alias_names(list@.take(i + 1)) =~= before.push(name@));
        i += 1;
    }
    assert(list@.take(i as int) =~= list@);
    out
}

/// The modules that a `from` import of a package's module depends on.
pub fn import_targets(package: &str, node: &StmtImportFrom) -> (r: Vec<String>)
    ensures
        texts(r@) == from_targets(package@, node),
{
    let level: usize = match &node.level {
        Some(level) => int_of(level),
        None => 0,
    };
    let mut out: Vec<String> = Vec::new();
    if level == 0 {
        if let Some(m) = &node.module {
            out.push(name_of(m).to_owned());
        }
        assert(texts(out@) =~= from_targets(package@, node));
        return out;
    }
    let base = base_of(package, level);
    match &node.module {
        Some(m) => {
            out.push(name_under(base.as_str(), name_of(m)));
            assert(texts(out@) =~= from_targets(package@, node));
        },
        None => {
            let names = names_of(&node.names);
            let ghost all = alias_names(node.names@);
            let mut i: usize = 0;
            while i < names.len()
                invariant
                    i <= names@.len(),
                    texts(names@) == all,
                    out@.len() == i,
                    forall|k: int| 0 <= k < i ==> #[trigger] out@[k]@ == under(base@, all[k]),
                decreases names@.len() - i,
            {
                assert(all[i as int] == names@[i as int]@);
                out.push(name_under(base.as_str(), names[i].as_str()));
                i += 1;
            }
            assert(texts(out@) =~= from_targets(package@, node));
        },
    }
    out
}

/// The statements that run when a module is imported: what stands in functions and
/// under `if TYPE_CHECKING:` does not.
#[verifier::allow_in_spec]
pub fn run_on_import() -> Coverage
    returns
        (Coverage {
            arguments: false,
            comprehensions: false,
            keywords: KeywordValues::Skipped,
            with_items: false,
            functions: false,
            classes: true,
            lambdas: false,
            type_checking: false,
            dict_heads: true,
        }),
{
    Coverage {
        arguments: false,
        comprehensions: false,
        keywords: KeywordValues::Skipped,
        with_items: false,
        functions: false,
        classes: true,
        lambdas: false,
        type_checking: false,
        dict_heads: true,
    }
}

/// The modules that a visited import depends on.
pub open spec fn imported_modules<'a>(package: Seq<char>) -> spec_fn(Seen<'a>) -> Seq<Seq<char>> {
    |v: Seen<'a>|
        match v.node {
            Node::Stmt(s) => match s {
                Stmt::Import(n) => alias_names(n.names@),
                Stmt::ImportFrom(n) => from_targets(package, n),
                _ => seq![],
            },
            _ => seq![],
        }
}

/// The modules that a module's imports depend on when it is imported itself, in the
/// order of the imports.
pub open spec fn dependencies(body: Seq<Stmt>, package: Seq<char>) -> Seq<Seq<char>> {
    walk_stmts(body, run_on_import(), outset()).flat_map(imported_modules(package))
}

/// The modules that a module's imports depend on when it is imported itself.
pub fn module_level_imports(body: &[Stmt], package: &str) -> (r: Vec<String>)
    ensures
        texts(r@) == dependencies(body@, package@),
{
    let found = visits(body, run_on_import());
    let ghost all = seen(found@);
    let ghost f = imported_modules(package@);
    let mut out: Vec<String> = Vec::new();
    let mut i: usize = 0;
    assert(texts(out@) =~= all.take(0).flat_map(f));
    while i < found.len()
        invariant
            i <= found@.len(),
            all == seen(found@),
            f == imported_modules(package@),
            texts(out@) == all.take(i as int).flat_map(f),
        decreases found@.len() - i,
    {
        let ghost before = texts(out@);
        proof {
            all.lemma_flat_map_take_append(f, i as int);
            assert(all[i as int] == found@[i as int]@);
            assert(before + seq![] =~= before);
        }
        match found[i].node {
            Node::Stmt(s) => match s {
                Stmt::Import(n) => {
                    let mut more = names_of(&n.names);
                    let ghost added = texts(more@);
                    out.append(&mut more);
                    assert(texts(out@) =~= before + added);
                },
                Stmt::ImportFrom(n) => {
                    let mut more = import_targets(package, n);
                    let ghost added = texts(more@);
                    out.append(&mut more);
                    assert(texts(out@) =~= before + added);
                },
                _ => {},
            },
            _ => {},
        }
        i += 1;
    }
    assert(all.take(i as int) =~= all);
    out
}

// ── The graph ───────────────────────────────────────────────────────────────

/// A text without the dots at its end.
pub open spec fn without_dots(s: Seq<char>) -> Seq<char>
    decreases s.len(),
{
    if s.len() > 0 && s.last() == '.' {
        without_dots(s.drop_last())
    } else {
        s
    }
}

fn drop_dots(s: &str) -> (r: String)
    ensures
        r@ == without_dots(s@),
{
    let mut n: usize = s.unicode_len();
    assert(s@.take(n as int) =~= s@);
    while n > 0 && s.get_char(n - 1) == '.'
        invariant
            n <= s@.len(),
            without_dots(s@) == without_dots(s@.take(n as int)),
        decreases n,
    {
        assert(s@.take(n as int).drop_last() =~= s@.take(n - 1));
        n -= 1;
    }
    proof {
        if n > 0 {
            assert(s@.take(n as int).last() == s@[n - 1]);
        }
        assert(s@.subrange(0, n as int) =~= s@.take(n as int));
    }
    s.substring_char(0, n).to_owned()
}

/// Whether a module is the package named `stem` or lies in it.
pub open spec fn is_own(stem: Seq<char>, name: Seq<char>) -> bool {
    name == stem || (stem + "."@).is_prefix_of(name)
}

/// The edge from a module to another of its package.
pub open spec fn own_edge(module: Seq<char>, stem: Seq<char>) -> spec_fn(Seq<char>) -> Seq<
    (Seq<char>, Seq<char>),
> {
    |t: Seq<char>|
        if is_own(stem, t) {
            seq![(module, t)]
        } else {
            seq![]
        }
}

/// The edges from a file to the modules of its package that it imports.
pub open spec fn file_edges(pkg_root: Seq<char>, stem: Seq<char>) -> spec_fn(ParsedFile) -> Seq<
    (Seq<char>, Seq<char>),
> {
    |f: ParsedFile|
        {
            let parts = file_parts(pkg_root, f.path@);
            dependencies(body_of(f.module), package_name(parts)).flat_map(
                own_edge(module_name(parts), stem),
            )
        }
}

/// Which module of a package imports which other, in the order of the files.
pub open spec fn import_graph(
    files: Seq<ParsedFile>,
    pkg_root: Seq<char>,
    stem: Seq<char>,
) -> Seq<(Seq<char>, Seq<char>)> {
    files.flat_map(file_edges(pkg_root, stem))
}

fn add_own_edges(
    edges: &mut Vec<(String, String)>,
    names: &Vec<String>,
    module: &str,
    stem: &str,
)
    ensures
        edge_views(final(edges)@) == edge_views(old(edges)@) + texts(names@).flat_map(
            own_edge(module@, stem@),
        ),
{
    let dotted = stem.to_owned().concat(".");
    let ghost base = edge_views(edges@);
    let ghost all = texts(names@);
    let ghost f = own_edge(module@, stem@);
    let mut i: usize = 0;
    assert(base =~= base + all.take(0).flat_map(f));
    while i < names.len()
        invariant
            i <= names@.len(),
            all == texts(names@),
            f == own_edge(module@, stem@),
            dotted@ == stem@ + "."@,
            edge_views(edges@) == base + all.take(i as int).flat_map(f),
        decreases names@.len() - i,
    {
        let ghost before = edge_views(edges@);
        proof {
            all.lemma_flat_map_take_append(f, i as int);
            assert(all[i as int] == names@[i as int]@);
            assert(before + seq![] =~= before);
        }
        let name = names[i].as_str();
        if same(name, stem) || starts_with(name, dotted.as_str()) {
            edges.push((module.to_owned(), name.to_owned()));
            assert(edge_views(edges@) =~= before + seq![(module@, name@)]);
        }
        assert(edge_views(edges@) =~= before + f(all[i as int]));
        assert(base + all.take(i as int).flat_map(f) + f(all[i as int]) =~= base + all.take(
            i + 1,
        ).flat_map(f));
        i += 1;
    }
    assert(all.take(i as int) =~= all);
}

fn graph_of(files: &[ParsedFile], pkg_root: &str, stem: &str) -> (r: Vec<(String, String)>)
    ensures
        edge_views(r@) == import_graph(files@, pkg_root@, stem@),
{
    let ghost f = file_edges(pkg_root@, stem@);
    let mut edges: Vec<(String, String)> = Vec::new();
    let mut i: usize = 0;
    assert(edge_views(edges@) =~= files@.take(0).flat_map(f));
    while i < files.len()
        invariant
            i <= files@.len(),
            f == file_edges(pkg_root@, stem@),
            edge_views(edges@) == files@.take(i as int).flat_map(f),
        decreases files@.len() - i,
    {
        proof {
            files@.lemma_flat_map_take_append(f, i as int);
        }
        let file = &files[i];
        let (module, package) = module_and_package_for(pkg_root, file.path.as_str());
        let names = module_level_imports(module_body(&file.module), package.as_str());
        add_own_edges(&mut edges, &names, module.as_str(), stem);
        i += 1;
    }
    assert(files@.take(i as int) =~= files@);
    edges
}

/// The file of a module: of several the last.
pub open spec fn file_of(
    files: Seq<ParsedFile>,
    pkg_root: Seq<char>,
    module: Seq<char>,
) -> Option<Seq<char>>
    decreases files.len(),
{
    if files.len() == 0 {
        None
    } else if module_name(file_parts(pkg_root, files.last().path@)) == module {
        Some(files.last().path@)
    } else {
        file_of(files.drop_last(), pkg_root, module)
    }
}

fn file_for_module<'a>(files: &'a [ParsedFile], pkg_root: &str, module: &str) -> (r: Option<
    &'a str,
>)
    ensures
        match r {
            Some(path) => file_of(files@, pkg_root@, module@) == Some(path@),
            None => file_of(files@, pkg_root@, module@) is None,
        },
{
    let mut i: usize = files.len();
    assert(files@.take(i as int) =~= files@);
    while i > 0
        invariant
            i <= files@.len(),
            file_of(files@, pkg_root@, module@) == file_of(
                files@.take(i as int),
                pkg_root@,
                module@,
            ),
        decreases i,
    {
        assert(files@.take(i as int).drop_last() =~= files@.take(i - 1));
        i -= 1;
        let path = files[i].path.as_str();
        let (name, _package) = module_and_package_for(pkg_root, path);
        if same(name.as_str(), module) {
            return Some(path);
        }
    }
    None
}

// ── The check ───────────────────────────────────────────────────────────────

/// The finding on a cycle, in the file of its first module.
pub open spec fn cycle_issue(
    pkg_name: Seq<char>,
    files: Seq<ParsedFile>,
    pkg_root: Seq<char>,
) -> spec_fn(Seq<Seq<char>>) -> Seq<IssueView> {
    |c: Seq<Seq<char>>|
        match file_of(files, pkg_root, c[0]) {
            Some(path) => seq![
                finding(
                    path,
                    1,
                    Severity::Error,
                    "import-cycle"@,
                    pkg_name,
                    "Circular import: "@ + join(c, " → "@)
                        + " — extract a shared abstraction (e.g. a typing.Protocol) both sides can depend on, and inject it instead of importing directly to break the cycle (Dependency Inversion Principle / Dependency Injection)"@,
                ),
            ],
            None => seq![],
        }
}

/// The import cycles of a package whose modules have a known prefix.
pub open spec fn import_cycles(
    pkg_name: Seq<char>,
    files: Seq<ParsedFile>,
    pkg_root: Seq<char>,
) -> Seq<IssueView> {
    match own_prefix(pkg_name) {
        Some(prefix) => cycles_in(
            import_graph(files, pkg_root, without_dots(prefix)),
        ).flat_map(cycle_issue(pkg_name, files, pkg_root)),
        None => seq![],
    }
}

/// The import cycles of a package whose modules have a known prefix.
pub fn check_import_cycles_pkg(pkg_name: &str, files: &[ParsedFile], pkg_root: &str) -> (r: Vec<
    Issue,
>)
    ensures
        issue_views(r@) == import_cycles(pkg_name@, files@, pkg_root@),
{
    let prefix = match allowed_import_prefix(pkg_name) {
        Some(prefix) => prefix,
        None => {
            return none();
        },
    };
    let stem = drop_dots(prefix);
    let edges = graph_of(files, pkg_root, stem.as_str());
    let cycles = find_cycles(&edges);
    let ghost all = lists(cycles@);
    let ghost f = cycle_issue(pkg_name@, files@, pkg_root@);
    let mut issues = none();
    let mut i: usize = 0;
    assert(issue_views(issues@) =~= all.take(0).flat_map(f));
    while i < cycles.len()
        invariant
            i <= cycles@.len(),
            all == lists(cycles@),
            all == cycles_in(edge_views(edges@)),
            f == cycle_issue(pkg_name@, files@, pkg_root@),
            issue_views(issues@) == all.take(i as int).flat_map(f),
        decreases cycles@.len() - i,
    {
        let cycle = &cycles[i];
        let ghost before = issue_views(issues@);
        proof {
            all.lemma_flat_map_take_append(f, i as int);
            assert(all[i as int] == texts(cycle@));
            law_found_cycles_are_cycles(edge_views(edges@), i as int);
            assert(before + seq![] =~= before);
            assert(texts(cycle@)[0] == cycle@[0]@);
        }
        if let Some(path) = file_for_module(files, pkg_root, cycle[0].as_str()) {
            let message = "Circular import: ".to_owned().concat(
                joined(cycle, " → ").as_str(),
            ).concat(
                " — extract a shared abstraction (e.g. a typing.Protocol) both sides can depend on, and inject it instead of importing directly to break the cycle (Dependency Inversion Principle / Dependency Injection)",
            );
            push_issue(
                &mut issues,
                issue(path, 1, Severity::Error, "import-cycle", pkg_name, message),
            );
        }
        i += 1;
    }
    assert(all.take(i as int) =~= all);
    issues
}

proof fn lemma_own_edges(names: Seq<Seq<char>>, module: Seq<char>, stem: Seq<char>, i: int)
    requires
        0 <= i < names.flat_map(own_edge(module, stem)).len(),
    ensures
        names.flat_map(own_edge(module, stem))[i].0 == module,
    decreases names.len(),
{
    let f = own_edge(module, stem);
    if names.len() == 0 {
        assert(names.flat_map(f) =~= seq![]);
    } else {
        let rest = names.drop_last();
        rest.lemma_flat_map_push(f, names.last());
        assert(names =~= rest.push(names.last()));
        if i < rest.flat_map(f).len() {
            lemma_own_edges(rest, module, stem, i);
        }
    }
}

proof fn lemma_sources_have_files(
    files: Seq<ParsedFile>,
    pkg_root: Seq<char>,
    stem: Seq<char>,
    i: int,
)
    requires
        0 <= i < import_graph(files, pkg_root, stem).len(),
    ensures
        file_of(files, pkg_root, import_graph(files, pkg_root, stem)[i].0) is Some,
    decreases files.len(),
{
    let f = file_edges(pkg_root, stem);
    if files.len() == 0 {
        assert(files.flat_map(f) =~= seq![]);
    } else {
        let rest = files.drop_last();
        let file = files.last();
        rest.lemma_flat_map_push(f, file);
        assert(files =~= rest.push(file));
        let n = rest.flat_map(f).len();
        if i < n {
            lemma_sources_have_files(rest, pkg_root, stem, i);
        } else {
            let parts = file_parts(pkg_root, file.path@);
            lemma_own_edges(
                dependencies(body_of(file.module), package_name(parts)),
                module_name(parts),
                stem,
                i - n,
            );
        }
    }
}

proof fn lemma_all_reported(cycles: Seq<Seq<Seq<char>>>, f: spec_fn(Seq<Seq<char>>) -> Seq<IssueView>)
    requires
        forall|i: int| 0 <= i < cycles.len() ==> f(#[trigger] cycles[i]).len() == 1,
    ensures
        cycles.flat_map(f).len() == cycles.len(),
    decreases cycles.len(),
{
    if cycles.len() == 0 {
        assert(cycles.flat_map(f) =~= seq![]);
    } else {
        let rest = cycles.drop_last();
        assert forall|i: int| 0 <= i < rest.len() implies f(#[trigger] rest[i]).len() == 1 by {
            assert(rest[i] == cycles[i]);
        }
        lemma_all_reported(rest, f);
        rest.lemma_flat_map_push(f, cycles.last());
        assert(cycles =~= rest.push(cycles.last()));
        assert(f(cycles[cycles.len() - 1]).len() == 1);
    }
}

/// Each cycle that the search finds is reported, and nothing else.
pub proof fn law_each_cycle_is_reported(
    pkg_name: Seq<char>,
    prefix: Seq<char>,
    files: Seq<ParsedFile>,
    pkg_root: Seq<char>,
)
    requires
        own_prefix(pkg_name) == Some(prefix),
    ensures
        import_cycles(pkg_name, files, pkg_root).len() == cycles_in(
            import_graph(files, pkg_root, without_dots(prefix)),
        ).len(),
{
    let stem = without_dots(prefix);
    let edges = import_graph(files, pkg_root, stem);
    let cycles = cycles_in(edges);
    let f = cycle_issue(pkg_name, files, pkg_root);
    assert forall|i: int| 0 <= i < cycles.len() implies f(#[trigger] cycles[i]).len() == 1 by {
        law_found_cycles_are_cycles(edges, i);
        assert(linked(edges, cycles[i], 0));
        let k = edges.index_of((cycles[i][0], cycles[i][1]));
        lemma_sources_have_files(files, pkg_root, stem, k);
    }
    lemma_all_reported(cycles, f);
}

/// A package whose modules import each other in a circle is reported.
pub proof fn law_circular_imports_are_reported(
    pkg_name: Seq<char>,
    prefix: Seq<char>,
    files: Seq<ParsedFile>,
    pkg_root: Seq<char>,
    c: Seq<Seq<char>>,
)
    requires
        own_prefix(pkg_name) == Some(prefix),
        is_cycle(import_graph(files, pkg_root, without_dots(prefix)), c),
    ensures
        import_cycles(pkg_name, files, pkg_root).len() > 0,
{
    law_cycles_are_found(import_graph(files, pkg_root, without_dots(prefix)), c);
    law_each_cycle_is_reported(pkg_name, prefix, files, pkg_root);
}

/// Whether an `import` or an absolute `from` import names a module.
pub open spec fn names_module(s: Stmt, name: Seq<char>) -> bool {
    match s {
        Stmt::Import(n) => exists|i: int|
            0 <= i < n.names@.len() && identifier_text((#[trigger] n.names@[i]).name) == name,
        Stmt::ImportFrom(n) => (n.module matches Some(m) && identifier_text(m) == name) && (
        n.level is None || (n.level matches Some(l) && int_value(l) == 0)),
        _ => false,
    }
}

/// An import that importing a module runs is one of the module's dependencies.
pub proof fn law_run_imports_are_dependencies(
    body: Seq<Stmt>,
    package: Seq<char>,
    s: &Stmt,
    name: Seq<char>,
)
    requires
        runs_on_import(body, *s),
        names_module(*s, name),
    ensures
        dependencies(body, package).contains(name),
{
    let v = walk_stmts(body, run_on_import(), outset());
    let f = imported_modules(package);
    lemma_run_statements_are_found(body, s, run_on_import());
    let k = choose|k: int| 0 <= k < v.len() && (#[trigger] v[k]).node == Node::Stmt(s);
    match s {
        Stmt::Import(n) => {
            let i = choose|i: int|
                0 <= i < n.names@.len() && identifier_text((#[trigger] n.names@[i]).name) == name;
            assert(alias_names(n.names@)[i] == name);
        },
        Stmt::ImportFrom(n) => {
            assert(from_targets(package, n)[0] == name);
        },
        _ => {},
    }
    assert(f(v[k]).contains(name));
    lemma_flat_map_contains(v, f, name);
}

/// A `from` import with one leading dot depends on what it names in the package around the
/// module, and one with two dots on what it names in the package around that.
pub proof fn law_dots_lead_outward(
    outer: Seq<char>,
    inner: Seq<char>,
    package: Seq<char>,
    n: &StmtImportFrom,
    i: int,
)
    requires
        outer.len() > 0,
        !inner.contains('.'),
        package == outer + "."@ + inner,
        n.level matches Some(l) && (int_value(l) == 1 || int_value(l) == 2),
        0 <= i < n.names@.len(),
    ensures
        ({
            let base = if int_value(n.level->0) == 1 {
                package
            } else {
                outer
            };
            match n.module {
                Some(m) => from_targets(package, n) == seq![base + "."@ + identifier_text(m)],
                None => from_targets(package, n).len() == n.names@.len() && from_targets(
                    package,
                    n,
                )[i] == base + "."@ + identifier_text(n.names@[i].name),
            }
        }),
{
    reveal_strlit(".");
    assert("."@ =~= seq!['.']);
    law_split_at_a_separator(outer, inner, '.');
    law_whole_without_a_separator(inner, '.');
    law_pieces_join_back(package, '.');
    law_pieces_join_back(outer, '.');
    let parts = split(package, '.');
    assert(parts == split(outer, '.') + seq![inner]);
    assert(parts.take(parts.len() as int) =~= parts);
    assert(parts.take(parts.len() - 1) =~= split(outer, '.'));
}

/// The import graph of a package holds the edge from a module to each module that importing
/// it imports, where that is the package itself or lies in the package.
pub proof fn law_own_imports_are_edges(
    files: Seq<ParsedFile>,
    pkg_root: Seq<char>,
    stem: Seq<char>,
    k: int,
    name: Seq<char>,
)
    requires
        0 <= k < files.len(),
        dependencies(
            body_of(files[k].module),
            package_name(file_parts(pkg_root, files[k].path@)),
        ).contains(name),
        name == stem || (stem + "."@).is_prefix_of(name),
    ensures
        import_graph(files, pkg_root, stem).contains(
            (module_name(file_parts(pkg_root, files[k].path@)), name),
        ),
{
    let f = file_edges(pkg_root, stem);
    let parts = file_parts(pkg_root, files[k].path@);
    let names = dependencies(body_of(files[k].module), package_name(parts));
    let g = own_edge(module_name(parts), stem);
    let edge = (module_name(parts), name);
    let i = names.index_of(name);
    assert(g(names[i])[0] == edge);
    assert(g(names[i]).contains(edge));
    lemma_flat_map_contains(names, g, edge);
    assert(f(files[k]).contains(edge));
    lemma_flat_map_contains(files, f, edge);
}

/// An edge of the import graph leads from the module of a file of the package to a module
/// that the file's imports depend on, and that is the package itself or lies in it.
pub proof fn law_edges_are_own_imports(
    files: Seq<ParsedFile>,
    pkg_root: Seq<char>,
    stem: Seq<char>,
    edge: (Seq<char>, Seq<char>),
)
    requires
        import_graph(files, pkg_root, stem).contains(edge),
    ensures
        edge.1 == stem || (stem + "."@).is_prefix_of(edge.1),
        exists|k: int|
            0 <= k < files.len() && module_name(file_parts(pkg_root, (#[trigger] files[k]).path@))
                == edge.0 && dependencies(
                body_of(files[k].module),
                package_name(file_parts(pkg_root, files[k].path@)),
            ).contains(edge.1),
{
    let f = file_edges(pkg_root, stem);
    lemma_flat_map_contains(files, f, edge);
    let k = choose|k: int| 0 <= k < files.len() && f(#[trigger] files[k]).contains(edge);
    let parts = file_parts(pkg_root, files[k].path@);
    let names = dependencies(body_of(files[k].module), package_name(parts));
    let g = own_edge(module_name(parts), stem);
    lemma_flat_map_contains(names, g, edge);
    let i = choose|i: int| 0 <= i < names.len() && g(#[trigger] names[i]).contains(edge);
    assert(names[i] == edge.1);
    assert(module_name(file_parts(pkg_root, files[k].path@)) == edge.0);
}

/// The dotted name of a module: the names of the directories from the package's on and that
/// of the file without `.py`, with dots between them; the file `__init__.py` is the
/// directory itself.
pub proof fn law_modules_are_named_by_their_place(
    pkg_root: Seq<char>,
    path: Seq<char>,
    dirs: Seq<Seq<char>>,
    base: Seq<char>,
)
    requires
        components(path) == parent_components(pkg_root) + dirs + seq![base + ".py"@],
        base.len() > 0,
        !base.contains('.'),
    ensures
        file_parts(pkg_root, path) == dirs + seq![base],
        base == "__init__"@ ==> module_name(file_parts(pkg_root, path)) == join(dirs, "."@),
        base != "__init__"@ ==> module_name(file_parts(pkg_root, path)) == join(
            dirs + seq![base],
            "."@,
        ),
        package_name(file_parts(pkg_root, path)) == join(dirs, "."@),
{
    reveal_strlit(".py");
    reveal_strlit("/");
    reveal_strlit(".");
    reveal_strlit("..");
    let anchor = parent_components(pkg_root);
    let whole = components(path);
    let rest = whole.skip(anchor.len() as int);
    assert(rest =~= dirs + seq![base + ".py"@]);
    assert(anchor.is_prefix_of(whole)) by {
        assert(whole.take(anchor.len() as int) =~= anchor);
    }
    assert((base + ".py"@)[0] == base[0]);
    assert((base + ".py"@).len() > 3);
    lemma_stem(base);
    assert(rest.last() == base + ".py"@);
    assert(without_extension(rest) =~= dirs + seq![base]);
    assert((dirs + seq![base]).drop_last() =~= dirs);
    assert((dirs + seq![base]).last() == base);
}

proof fn lemma_stem(base: Seq<char>)
    requires
        base.len() > 0,
        !base.contains('.'),
    ensures
        stem_name(base + ".py"@) == base,
{
    reveal_strlit(".py");
    let name = base + ".py"@;
    reveal_with_fuel(last_dot, 4);
    assert(name.last() == 'y');
    assert(name.drop_last().last() == 'p');
    assert(name.drop_last().drop_last().last() == '.');
    assert(last_dot(name) == base.len());
    assert(name.take(base.len() as int) =~= base);
}

/// Where two modules of a package import each other, be one of them the package itself, a
/// cycle through one of them is among the cycles of the import graph, and findings of the
/// rule are reported.
pub proof fn law_mutual_imports_are_reported(
    pkg_name: Seq<char>,
    prefix: Seq<char>,
    files: Seq<ParsedFile>,
    pkg_root: Seq<char>,
    j: int,
    k: int,
)
    requires
        own_prefix(pkg_name) == Some(prefix),
        0 <= j < files.len(),
        0 <= k < files.len(),
        ({
            let stem = without_dots(prefix);
            let a = module_name(file_parts(pkg_root, files[j].path@));
            let b = module_name(file_parts(pkg_root, files[k].path@));
            &&& a == stem || (stem + "."@).is_prefix_of(a)
            &&& b == stem || (stem + "."@).is_prefix_of(b)
            &&& dependencies(
                body_of(files[j].module),
                package_name(file_parts(pkg_root, files[j].path@)),
            ).contains(b)
            &&& dependencies(
                body_of(files[k].module),
                package_name(file_parts(pkg_root, files[k].path@)),
            ).contains(a)
        }),
    ensures
        import_cycles(pkg_name, files, pkg_root).len() > 0,
        ({
            let found = cycles_in(import_graph(files, pkg_root, without_dots(prefix)));
            exists|i: int|
                0 <= i < found.len() && ((#[trigger] found[i]).contains(
                    module_name(file_parts(pkg_root, files[j].path@)),
                ) || found[i].contains(module_name(file_parts(pkg_root, files[k].path@))))
        }),
{
    let stem = without_dots(prefix);
    let a = module_name(file_parts(pkg_root, files[j].path@));
    let b = module_name(file_parts(pkg_root, files[k].path@));
    let edges = import_graph(files, pkg_root, stem);
    law_own_imports_are_edges(files, pkg_root, stem, j, b);
    law_own_imports_are_edges(files, pkg_root, stem, k, a);
    let c = seq![a, b, a];
    assert forall|i: int| 0 <= i < c.len() - 1 implies #[trigger] linked(edges, c, i) by {
        if i == 0 {
            assert(c[0] == a && c[1] == b);
        } else {
            assert(c[1] == b && c[2] == a);
        }
    }
    assert(is_cycle(edges, c));
    law_cycles_are_found(edges, c);
    law_each_cycle_is_reported(pkg_name, prefix, files, pkg_root);
    let (i, m) = choose|i: int, m: int|
        0 <= i < cycles_in(edges).len() && 0 <= m < c.len() && (#[trigger] cycles_in(
            edges,
        )[i]).contains(#[trigger] c[m]);
    assert(c[m] == a || c[m] == b);
    assert(cycles_in(edges)[i].contains(c[m]));
}

/// The packages whose cycles are looked for, and the names that their modules begin with.
pub proof fn law_own_modules_by_package(pkg_name: Seq<char>)
    ensures
        pkg_name == "boti"@ ==> (own_prefix(pkg_name) matches Some(p) && without_dots(p)
            == "boti"@),
        pkg_name == "boti-data"@ ==> (own_prefix(pkg_name) matches Some(p) && without_dots(p)
            == "boti_data"@),
        pkg_name == "boti-dask"@ ==> (own_prefix(pkg_name) matches Some(p) && without_dots(p)
            == "boti_dask"@),
        pkg_name == "etl-core"@ ==> (own_prefix(pkg_name) matches Some(p) && without_dots(p)
            == "etl_core"@),
        pkg_name == "etl-demo"@ ==> (own_prefix(pkg_name) matches Some(p) && without_dots(p)
            == "etl_demo"@),
{
    reveal_strlit("boti");
    reveal_strlit("boti-data");
    reveal_strlit("boti-dask");
    reveal_strlit("etl-core");
    reveal_strlit("etl-demo");
    reveal_strlit("boti.");
    reveal_strlit("boti_data.");
    reveal_strlit("boti_dask.");
    reveal_strlit("etl_core.");
    reveal_strlit("etl_demo.");
    reveal_strlit("boti_data");
    reveal_strlit("boti_dask");
    reveal_strlit("etl_core");
    reveal_strlit("etl_demo");
    lemma_one_dot("boti"@);
    lemma_one_dot("boti_data"@);
    lemma_one_dot("boti_dask"@);
    lemma_one_dot("etl_core"@);
    lemma_one_dot("etl_demo"@);
    assert("boti."@ =~= "boti"@.push('.'));
    assert("boti_data."@ =~= "boti_data"@.push('.'));
    assert("boti_dask."@ =~= "boti_dask"@.push('.'));
    assert("etl_core."@ =~= "etl_core"@.push('.'));
    assert("etl_demo."@ =~= "etl_demo"@.push('.'));
    assert("boti-data"@[4] != "boti-dask"@[7]);
    assert("boti-data"@[7] != "boti-dask"@[7]);
    assert("etl-core"@[4] != "etl-demo"@[4]);
}

proof fn lemma_one_dot(s: Seq<char>)
    requires
        s.len() > 0,
        s.last() != '.',
    ensures
        without_dots(s.push('.')) == s,
{
    reveal_with_fuel(without_dots, 3);
    assert(s.push('.').drop_last() =~= s);
}

/// Whether one of the files has a path and holds a module.
pub open spec fn is_module_of(
    files: Seq<ParsedFile>,
    pkg_root: Seq<char>,
    path: Seq<char>,
    module: Seq<char>,
) -> bool {
    exists|k: int|
        0 <= k < files.len() && (#[trigger] files[k]).path@ == path && module_name(
            file_parts(pkg_root, files[k].path@),
        ) == module
}

/// Each reported cycle is an error on line 1 of the file of its first module, and its message
/// names the modules of the cycle in order.
pub proof fn law_cycle_findings_name_their_modules(
    pkg_name: Seq<char>,
    prefix: Seq<char>,
    files: Seq<ParsedFile>,
    pkg_root: Seq<char>,
    x: IssueView,
)
    requires
        own_prefix(pkg_name) == Some(prefix),
        import_cycles(pkg_name, files, pkg_root).contains(x),
    ensures
        x.line == 1 && x.severity == Severity::Error && x.rule == "import-cycle"@ && x.package
            == pkg_name,
        ({
            let found = cycles_in(import_graph(files, pkg_root, without_dots(prefix)));
            exists|i: int|
                0 <= i < found.len() && (#[trigger] found[i]).len() >= 2 && ("Circular import: "@
                    + join(found[i], " → "@)).is_prefix_of(x.message) && is_module_of(
                    files,
                    pkg_root,
                    x.file,
                    found[i][0],
                )
        }),
{
    let edges = import_graph(files, pkg_root, without_dots(prefix));
    let found = cycles_in(edges);
    let f = cycle_issue(pkg_name, files, pkg_root);
    lemma_flat_map_contains(found, f, x);
    let i = choose|i: int| 0 <= i < found.len() && f(#[trigger] found[i]).contains(x);
    law_found_cycles_are_cycles(edges, i);
    lemma_file_of(files, pkg_root, found[i][0]);
    let head = "Circular import: "@ + join(found[i], " → "@);
    let path = file_of(files, pkg_root, found[i][0])->0;
    assert(f(found[i])[0] == x);
    assert(is_module_of(files, pkg_root, x.file, found[i][0]));
    assert(head.is_prefix_of(x.message)) by {
        assert(x.message.take(head.len() as int) =~= head);
    }
}

proof fn lemma_file_of(files: Seq<ParsedFile>, pkg_root: Seq<char>, module: Seq<char>)
    ensures
        file_of(files, pkg_root, module) matches Some(path) ==> is_module_of(
            files,
            pkg_root,
            path,
            module,
        ),
    decreases files.len(),
{
    if files.len() > 0 {
        lemma_file_of(files.drop_last(), pkg_root, module);
        if module_name(file_parts(pkg_root, files.last().path@)) == module {
            assert(files[files.len() - 1].path@ == files.last().path@);
        } else if let Some(path) = file_of(files.drop_last(), pkg_root, module) {
            let k = choose|k: int|
                0 <= k < files.drop_last().len() && (#[trigger] files.drop_last()[k]).path@ == path
                    && module_name(file_parts(pkg_root, files.drop_last()[k].path@)) == module;
            assert(files[k] == files.drop_last()[k]);
        }
    }
}

} // verus!
