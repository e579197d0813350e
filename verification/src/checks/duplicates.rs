//! Functions of a package that have the same body.

use crate::ast_helpers::{
    collect_functions, def_body, def_name, def_range, dump, dump_stmts, func_stmts, functions,
    is_stub, is_trivial_body, law_dumps_tell_blocks_apart, line_count, line_in, meaningful,
};
use crate::checks::common::{body_of, module_body, none, site_of, Site, SiteView};
use crate::checks::functions::function_lines;
use crate::checks::package_level::ParsedFile;
use crate::definitions::law_functions_stand_in_the_body;
use crate::models::{
    display_path, finding, issue, issue_views, push_issue, shown_path, Issue, IssueView, Severity,
};
use crate::order::{
    lemma_flat_map_contains, lemma_sorted, ordered, sort_by, sorted, total_preorder,
};
use crate::paths::{lemma_path_le_total, lemma_path_le_transitive, path_at_most, path_le};
use crate::structure::block_shape;
use crate::syntax::range_start;
use crate::text::{
    add_text, count_text, dec, distinct_texts, join, joined, lemma_distinct_texts,
    lemma_text_le_antisymmetric, lemma_text_le_total, lemma_text_le_transitive, same,
    text_at_most, text_le, texts,
};
use crate::within::stands_in;
use rustpython_ast::{Expr, Stmt};
use vstd::prelude::*;
use vstd::string::*;

verus! {

/// How many functions have the same body at least for it to be reported.
pub const MIN_DUPLICATE_OCCURRENCES: usize = 2;

// ── Functions and their bodies ──────────────────────────────────────────────

/// A function: its file, its name, its line, and its body as text.
pub struct BodyView {
    pub path: Seq<char>,
    pub name: Seq<char>,
    pub line: nat,
    pub key: Seq<char>,
}

/// A function: its file, its name, its line, and its body as text.
pub struct Body<'a> {
    pub path: &'a str,
    pub name: String,
    pub line: usize,
    pub key: String,
}

impl<'a> Body<'a> {
    pub open spec fn view(self) -> BodyView {
        BodyView {
            path: self.path@,
            name: self.name@,
            line: self.line as nat,
            key: self.key@,
        }
    }
}

/// What a function is for the comparison.
pub open spec fn body_view<'a>() -> spec_fn(Body<'a>) -> BodyView {
    |b: Body<'a>| b@
}

/// What functions are for the comparison.
pub open spec fn body_views<'a>(v: Seq<Body<'a>>) -> Seq<BodyView> {
    v.map_values(body_view())
}

/// A function that is long enough and does something.
pub open spec fn comparable_body<'a>(site: SiteView, min_lines: nat) -> spec_fn(&'a Stmt) -> Seq<
    BodyView,
> {
    |s: &'a Stmt|
        if function_lines(site, s) < min_lines || is_stub(def_body(s)) {
            seq![]
        } else {
            seq![
                BodyView {
                    path: site.file,
                    name: def_name(s),
                    line: line_in(site.starts, range_start(def_range(s)) as nat),
                    key: dump(def_body(s)),
                },
            ]
        }
}

/// The functions of a file that are long enough and do something.
pub open spec fn file_bodies(min_lines: nat) -> spec_fn(ParsedFile) -> Seq<BodyView> {
    |f: ParsedFile|
        functions(body_of(f.module)).flat_map(
            comparable_body(site_of(f.source@, f.path@, seq![]), min_lines),
        )
}

/// The functions of a package that are long enough and do something.
pub open spec fn bodies(files: Seq<ParsedFile>, min_lines: nat) -> Seq<BodyView> {
    files.flat_map(file_bodies(min_lines))
}

fn add_bodies<'a>(out: &mut Vec<Body<'a>>, file: &'a ParsedFile, min_lines: usize)
    ensures
        body_views(final(out)@) == body_views(old(out)@) + file_bodies(min_lines as nat)(*file),
{
    let site = Site::new(file.source.as_str(), file.path.as_str(), "");
    assert(site@ == site_of(file.source@, file.path@, seq![])) by {
        reveal_strlit("");
        assert(""@ =~= seq![]);
    }
    let funcs = collect_functions(module_body(&file.module));
    let ghost all = functions(body_of(file.module));
    let ghost f = comparable_body(site@, min_lines as nat);
    let ghost base = body_views(out@);
    let mut i: usize = 0;
    assert(base =~= base + all.take(0).flat_map(f));
    while i < funcs.len()
        invariant
            i <= funcs@.len(),
            all == func_stmts(funcs@),
            forall|j: int| 0 <= j < funcs@.len() ==> (#[trigger] funcs@[j]).well_formed(),
            site@.file == file.path@,
            f == comparable_body(site@, min_lines as nat),
            body_views(out@) == base + all.take(i as int).flat_map(f),
        decreases funcs@.len() - i,
    {
        let func = &funcs[i];
        let ghost before = body_views(out@);
        proof {
            all.lemma_flat_map_take_append(f, i as int);
            assert(all[i as int] == func.stmt);
            assert(before + seq![] =~= before);
        }
        let lines: usize = line_count(&site.index, func.start, func.end());
        if lines >= min_lines && !is_trivial_body(func.body()) {
            let one = Body {
                path: file.path.as_str(),
                name: func.name.clone(),
                line: site.index.line_number(func.start),
                key: dump_stmts(func.body()),
            };
            out.push(one);
            assert(body_views(out@) =~= before + seq![one@]);
        }
        assert(body_views(out@) =~= before + f(all[i as int]));
        assert(base + all.take(i as int).flat_map(f) + f(all[i as int]) =~= base + all.take(
            i + 1,
        ).flat_map(f));
        i += 1;
    }
    assert(all.take(i as int) =~= all);
}

fn collect_bodies<'a>(files: &'a [ParsedFile], min_lines: usize) -> (r: Vec<Body<'a>>)
    ensures
        body_views(r@) == bodies(files@, min_lines as nat),
{
    let ghost f = file_bodies(min_lines as nat);
    let mut out: Vec<Body<'a>> = Vec::new();
    let mut i: usize = 0;
    assert(body_views(out@) =~= files@.take(0).flat_map(f));
    while i < files.len()
        invariant
            i <= files@.len(),
            f == file_bodies(min_lines as nat),
            body_views(out@) == files@.take(i as int).flat_map(f),
        decreases files@.len() - i,
    {
        proof {
            files@.lemma_flat_map_take_append(f, i as int);
        }
        add_bodies(&mut out, &files[i], min_lines);
        i += 1;
    }
    assert(files@.take(i as int) =~= files@);
    out
}

// ── Groups ──────────────────────────────────────────────────────────────────

/// A body, if it is the given one.
pub open spec fn body_like(key: Seq<char>) -> spec_fn(BodyView) -> Seq<BodyView> {
    |b: BodyView|
        if b.key == key {
            seq![b]
        } else {
            seq![]
        }
}

/// The order of functions: by the text of their path, then by line.
pub open spec fn by_place() -> spec_fn(BodyView, BodyView) -> bool {
    |a: BodyView, b: BodyView|
        if a.path == b.path {
            a.line <= b.line
        } else {
            text_le(a.path, b.path)
        }
}

/// The functions with the given body, in order.
pub open spec fn group(all: Seq<BodyView>, key: Seq<char>) -> Seq<BodyView> {
    sorted(all.flat_map(body_like(key)), by_place())
}

/// The bodies of functions, one by one.
pub open spec fn body_keys(all: Seq<BodyView>) -> Seq<Seq<char>> {
    all.map_values(|b: BodyView| b.key)
}

/// The bodies that there are, in the order in which they come first.
pub open spec fn keys(all: Seq<BodyView>) -> Seq<Seq<char>> {
    distinct_texts(body_keys(all))
}

/// Where a function stands.
pub open spec fn location(b: BodyView) -> Seq<char> {
    shown_path(b.path, None) + ":"@ + dec(b.line) + " ("@ + b.name + ")"@
}

/// Where functions stand.
pub open spec fn locations(s: Seq<BodyView>) -> Seq<Seq<char>> {
    s.map_values(|b: BodyView| location(b))
}

/// The finding on a body that several functions have.
pub open spec fn duplicate_issue(pkg_name: Seq<char>, all: Seq<BodyView>) -> spec_fn(
    Seq<char>,
) -> Seq<IssueView> {
    |key: Seq<char>|
        {
            let same_body = group(all, key);
            if same_body.len() < MIN_DUPLICATE_OCCURRENCES {
                seq![]
            } else {
                seq![
                    finding(
                        same_body[0].path,
                        same_body[0].line,
                        Severity::Warning,
                        "duplicate-function-body"@,
                        pkg_name,
                        "Identical body in "@ + dec(same_body.len()) + " places: "@ + join(
                            locations(same_body),
                            ", "@,
                        ),
                    ),
                ]
            }
        }
}

/// The order of findings: by file, then by line.
pub open spec fn by_file() -> spec_fn(IssueView, IssueView) -> bool {
    |a: IssueView, b: IssueView|
        if path_le(a.file, b.file) && path_le(b.file, a.file) {
            a.line <= b.line
        } else {
            path_le(a.file, b.file)
        }
}

/// The bodies that several of a list of functions have.
pub open spec fn shared_bodies(pkg_name: Seq<char>, all: Seq<BodyView>) -> Seq<IssueView> {
    sorted(keys(all).flat_map(duplicate_issue(pkg_name, all)), by_file())
}

/// The bodies that several functions of a package have.
pub open spec fn duplicate_functions(
    pkg_name: Seq<char>,
    files: Seq<ParsedFile>,
    min_lines: nat,
) -> Seq<IssueView> {
    shared_bodies(pkg_name, bodies(files, min_lines))
}

fn collect_keys<'a>(all: &Vec<Body<'a>>) -> (r: Vec<String>)
    ensures
        texts(r@) == keys(body_views(all@)),
{
    let ghost f = |b: BodyView| b.key;
    let ghost every = body_views(all@).map_values(f);
    let mut out: Vec<String> = Vec::new();
    let mut i: usize = 0;
    assert(texts(out@) =~= distinct_texts(every.take(0)));
    while i < all.len()
        invariant
            i <= all@.len(),
            every == body_views(all@).map_values(f),
            f == (|b: BodyView| b.key),
            texts(out@) == distinct_texts(every.take(i as int)),
        decreases all@.len() - i,
    {
        proof {
            assert(every.take(i + 1).drop_last() =~= every.take(i as int));
            assert(every[i as int] == all@[i as int].key@);
        }
        add_text(&mut out, all[i].key.as_str());
        i += 1;
    }
    assert(every.take(i as int) =~= every);
    out
}

fn collect_group<'a>(all: &Vec<Body<'a>>, key: &str) -> (r: Vec<Body<'a>>)
    ensures
        body_views(r@) == group(body_views(all@), key@),
{
    let ghost every = body_views(all@);
    let ghost f = body_like(key@);
    let mut out: Vec<Body<'a>> = Vec::new();
    let mut i: usize = 0;
    assert(body_views(out@) =~= every.take(0).flat_map(f));
    while i < all.len()
        invariant
            i <= all@.len(),
            every == body_views(all@),
            f == body_like(key@),
            body_views(out@) == every.take(i as int).flat_map(f),
        decreases all@.len() - i,
    {
        let ghost before = body_views(out@);
        let b = &all[i];
        proof {
            every.lemma_flat_map_take_append(f, i as int);
            assert(every[i as int] == b@);
            assert(before + seq![] =~= before);
        }
        if same(b.key.as_str(), key) {
            let one = Body {
                path: b.path,
                name: b.name.clone(),
                line: b.line,
                key: b.key.clone(),
            };
            out.push(one);
            assert(body_views(out@) =~= before + seq![b@]);
        }
        i += 1;
    }
    assert(every.take(i as int) =~= every);
    let le = |a: &Body<'a>, b: &Body<'a>| -> (x: bool)
        ensures
            x == by_place()(a@, b@),
        {
            if same(a.path, b.path) {
                a.line <= b.line
            } else {
                text_at_most(a.path, b.path)
            }
        };
    sort_by::<Body<'a>, BodyView, _>(out, le, Ghost(body_view()), Ghost(by_place()))
}

fn list_locations<'a>(group: &Vec<Body<'a>>) -> (r: Vec<String>)
    ensures
        texts(r@) == locations(body_views(group@)),
{
    let ghost every = body_views(group@);
    let mut out: Vec<String> = Vec::new();
    let mut i: usize = 0;
    while i < group.len()
        invariant
            i <= group@.len(),
            every == body_views(group@),
            out@.len() == i,
            forall|k: int| 0 <= k < i ==> #[trigger] out@[k]@ == location(every[k]),
        decreases group@.len() - i,
    {
        let b = &group[i];
        assert(every[i as int] == b@);
        out.push(
            display_path(b.path, None).concat(":").concat(count_text(b.line).as_str()).concat(
                " (",
            ).concat(b.name.as_str()).concat(")"),
        );
        i += 1;
    }
    assert(texts(out@) =~= locations(every));
    out
}

/// The bodies that several of a list of functions have.
pub fn report_duplicates<'a>(pkg_name: &str, all: &Vec<Body<'a>>) -> (r: Vec<Issue>)
    ensures
        issue_views(r@) == shared_bodies(pkg_name@, body_views(all@)),
{
    let found = collect_keys(all);
    let ghost every = body_views(all@);
    let ghost each = texts(found@);
    let ghost f = duplicate_issue(pkg_name@, every);
    let mut issues = none();
    let mut i: usize = 0;
    assert(issue_views(issues@) =~= each.take(0).flat_map(f));
    while i < found.len()
        invariant
            i <= found@.len(),
            every == body_views(all@),
            each == texts(found@),
            f == duplicate_issue(pkg_name@, every),
            issue_views(issues@) == each.take(i as int).flat_map(f),
        decreases found@.len() - i,
    {
        let ghost before = issue_views(issues@);
        proof {
            each.lemma_flat_map_take_append(f, i as int);
            assert(each[i as int] == found@[i as int]@);
            assert(before + seq![] =~= before);
        }
        let same_body = collect_group(all, found[i].as_str());
        assert(body_views(same_body@).len() == same_body@.len());
        if same_body.len() >= MIN_DUPLICATE_OCCURRENCES {
            assert(body_views(same_body@)[0] == same_body@[0]@);
            let message = "Identical body in ".to_owned().concat(
                count_text(same_body.len()).as_str(),
            ).concat(" places: ").concat(joined(&list_locations(&same_body), ", ").as_str());
            push_issue(
                &mut issues,
                issue(
                    same_body[0].path,
                    same_body[0].line,
                    Severity::Warning,
                    "duplicate-function-body",
                    pkg_name,
                    message,
                ),
            );
        }
        i += 1;
    }
    assert(each.take(i as int) =~= each);
    let le = |a: &Issue, b: &Issue| -> (x: bool)
        ensures
            x == by_file()(a@, b@),
        {
            let before = path_at_most(a.file.as_str(), b.file.as_str());
            if before && path_at_most(b.file.as_str(), a.file.as_str()) {
                a.line <= b.line
            } else {
                before
            }
        };
    let r = sort_by::<Issue, IssueView, _>(issues, le, Ghost(|i: Issue| i@), Ghost(by_file()));
    assert(issue_views(r@) =~= r@.map_values(|i: Issue| i@));
    r
}

/// The bodies of at least `min_lines` lines that several functions of a package have.
pub fn check_duplicate_functions_pkg(pkg_name: &str, files: &[ParsedFile], min_lines: usize) -> (r:
    Vec<Issue>)
    ensures
        issue_views(r@) == duplicate_functions(pkg_name@, files@, min_lines as nat),
{
    report_duplicates(pkg_name, &collect_bodies(files, min_lines))
}

/// Findings by file and line are totally ordered.
proof fn lemma_by_file_is_total()
    ensures
        total_preorder(by_file()),
{
    let le = by_file();
    assert forall|a: IssueView, b: IssueView| #[trigger] le(a, b) || le(b, a) by {
        lemma_path_le_total(a.file, b.file);
    }
    assert forall|a: IssueView, b: IssueView, c: IssueView| #[trigger]
        le(a, b) && #[trigger] le(b, c) implies le(a, c) by {
        lemma_path_le_transitive(a.file, b.file, c.file);
        if path_le(c.file, a.file) {
            lemma_path_le_transitive(c.file, a.file, b.file);
            lemma_path_le_transitive(b.file, c.file, a.file);
        }
    }
}

/// Findings on duplicated bodies come by file and, within a file, by line.
pub proof fn law_duplicates_are_in_order(
    pkg_name: Seq<char>,
    files: Seq<ParsedFile>,
    min_lines: nat,
)
    ensures
        ordered(duplicate_functions(pkg_name, files, min_lines), by_file()),
{
    lemma_by_file_is_total();
    let all = bodies(files, min_lines);
    lemma_sorted(keys(all).flat_map(duplicate_issue(pkg_name, all)), by_file());
}

proof fn lemma_like_bodies(all: Seq<BodyView>, key: Seq<char>)
    ensures
        forall|b: BodyView| #[trigger]
            all.flat_map(body_like(key)).contains(b) <==> all.contains(b) && b.key == key,
    decreases all.len(),
{
    let f = body_like(key);
    if all.len() == 0 {
        assert(all.flat_map(f) =~= seq![]);
    } else {
        let rest = all.drop_last();
        let x = all.last();
        lemma_like_bodies(rest, key);
        rest.lemma_flat_map_push(f, x);
        assert(all =~= rest.push(x));
        assert forall|b: BodyView| #[trigger] all.flat_map(f).contains(b) <==> all.contains(b)
            && b.key == key by {
            broadcast use vstd::seq_lib::lemma_seq_contains_after_push;
            broadcast use vstd::seq_lib::lemma_seq_concat_contains_all_elements;

            assert(rest.push(x).contains(b) <==> rest.contains(b) || b == x);
            assert((rest.flat_map(f) + f(x)).contains(b) <==> rest.flat_map(f).contains(b) || f(
                x,
            ).contains(b));
            if x.key == key {
                assert(f(x)[0] == x);
                assert(f(x).contains(b) <==> b == x);
            }
        }
    }
}

proof fn lemma_by_place_is_total()
    ensures
        total_preorder(by_place()),
{
    let le = by_place();
    assert forall|a: BodyView, b: BodyView| #[trigger] le(a, b) || le(b, a) by {
        lemma_text_le_total(a.path, b.path);
    }
    assert forall|a: BodyView, b: BodyView, c: BodyView| #[trigger]
        le(a, b) && #[trigger] le(b, c) implies le(a, c) by {
        if a.path != b.path && b.path != c.path {
            lemma_text_le_transitive(a.path, b.path, c.path);
            if a.path == c.path {
                lemma_text_le_antisymmetric(a.path, b.path);
            }
        }
    }
}

/// A group holds exactly the functions that have its body, by path and line.
pub proof fn law_groups_hold_equal_bodies(all: Seq<BodyView>, key: Seq<char>)
    ensures
        forall|b: BodyView| #[trigger]
            group(all, key).contains(b) <==> all.contains(b) && b.key == key,
        ordered(group(all, key), by_place()),
{
    let like = all.flat_map(body_like(key));
    lemma_like_bodies(all, key);
    lemma_by_place_is_total();
    lemma_sorted(like, by_place());
    broadcast use vstd::seq_lib::to_multiset_contains;
    assert forall|b: BodyView| #[trigger] group(all, key).contains(b) <==> all.contains(b) && b.key
        == key by {
        assert(group(all, key).contains(b) <==> group(all, key).to_multiset().count(b) > 0);
        assert(like.contains(b) <==> like.to_multiset().count(b) > 0);
    }
}

proof fn lemma_two_alike(all: Seq<BodyView>, i: int, j: int)
    requires
        0 <= i < j < all.len(),
        all[i].key == all[j].key,
    ensures
        all.flat_map(body_like(all[i].key)).len() >= 2,
    decreases all.len(),
{
    let f = body_like(all[i].key);
    let rest = all.drop_last();
    rest.lemma_flat_map_push(f, all.last());
    assert(all =~= rest.push(all.last()));
    if j == rest.len() {
        lemma_like_bodies(rest, all[i].key);
        assert(rest[i] == all[i]);
        assert(rest.flat_map(f).contains(all[i]));
    } else {
        lemma_two_alike(rest, i, j);
    }
}

proof fn lemma_reported(pkg_name: Seq<char>, files: Seq<ParsedFile>, min_lines: nat, x: IssueView)
    ensures
        duplicate_functions(pkg_name, files, min_lines).contains(x) <==> keys(
            bodies(files, min_lines),
        ).flat_map(duplicate_issue(pkg_name, bodies(files, min_lines))).contains(x),
{
    let all = bodies(files, min_lines);
    let found = keys(all).flat_map(duplicate_issue(pkg_name, all));
    lemma_by_file_is_total();
    lemma_sorted(found, by_file());
    broadcast use vstd::seq_lib::to_multiset_contains;
    assert(found.contains(x) <==> found.to_multiset().count(x) > 0);
    assert(sorted(found, by_file()).contains(x) <==> sorted(
        found,
        by_file(),
    ).to_multiset().count(x) > 0);
}

/// Two functions that are long enough, do something and have the same body are reported.
pub proof fn law_equal_bodies_are_reported(
    pkg_name: Seq<char>,
    files: Seq<ParsedFile>,
    min_lines: nat,
    i: int,
    j: int,
)
    requires
        0 <= i < j < bodies(files, min_lines).len(),
        bodies(files, min_lines)[i].key == bodies(files, min_lines)[j].key,
    ensures
        ({
            let all = bodies(files, min_lines);
            let found = duplicate_issue(pkg_name, all)(all[i].key);
            found.len() == 1 && duplicate_functions(pkg_name, files, min_lines).contains(found[0])
        }),
{
    let all = bodies(files, min_lines);
    let key = all[i].key;
    let f = duplicate_issue(pkg_name, all);
    lemma_two_alike(all, i, j);
    lemma_by_place_is_total();
    lemma_sorted(all.flat_map(body_like(key)), by_place());
    assert(body_keys(all)[i] == key);
    assert(body_keys(all).contains(key));
    lemma_distinct_texts(body_keys(all));
    assert(keys(all).contains(key));
    let k = keys(all).index_of(key);
    assert(f(keys(all)[k]).contains(f(key)[0]));
    lemma_flat_map_contains(keys(all), f, f(key)[0]);
    lemma_reported(pkg_name, files, min_lines, f(key)[0]);
}

/// Every finding is on a body that at least two functions have.
pub proof fn law_reported_bodies_are_shared(
    pkg_name: Seq<char>,
    files: Seq<ParsedFile>,
    min_lines: nat,
    x: IssueView,
)
    requires
        duplicate_functions(pkg_name, files, min_lines).contains(x),
    ensures
        exists|key: Seq<char>|
            group(bodies(files, min_lines), key).len() >= MIN_DUPLICATE_OCCURRENCES
                && #[trigger] duplicate_issue(pkg_name, bodies(files, min_lines))(key) == seq![x],
{
    let all = bodies(files, min_lines);
    let f = duplicate_issue(pkg_name, all);
    lemma_reported(pkg_name, files, min_lines, x);
    lemma_flat_map_contains(keys(all), f, x);
    let i = choose|i: int| 0 <= i < keys(all).len() && f(#[trigger] keys(all)[i]).contains(x);
    assert(f(keys(all)[i]) =~= seq![x]);
}

/// Whether a body does something: besides strings on their own it holds more than a single
/// `pass`, `...` or `raise`.
pub open spec fn does_something(body: Seq<Stmt>) -> bool {
    let m = meaningful(body);
    m.len() > 1 || (m.len() == 1 && match *m[0] {
        Stmt::Pass(_) | Stmt::Raise(_) => false,
        Stmt::Expr(e) => !(*e.value matches Expr::Constant(c) && c.value is Ellipsis),
        _ => true,
    })
}

/// What a function of a file is for the comparison.
pub open spec fn body_in(file: ParsedFile, s: &Stmt) -> BodyView {
    let site = site_of(file.source@, file.path@, seq![]);
    BodyView {
        path: file.path@,
        name: def_name(s),
        line: line_in(site.starts, range_start(def_range(s)) as nat),
        key: dump(def_body(s)),
    }
}

/// Whether a function of a file is long enough to be compared, and does something.
pub open spec fn is_compared(file: ParsedFile, s: &Stmt, min_lines: nat) -> bool {
    &&& stands_in(body_of(file.module), *s)
    &&& s is FunctionDef || s is AsyncFunctionDef
    &&& function_lines(site_of(file.source@, file.path@, seq![]), s) >= min_lines
    &&& does_something(def_body(s))
}

proof fn lemma_compared(files: Seq<ParsedFile>, min_lines: nat, k: int, s: &Stmt)
    requires
        0 <= k < files.len(),
        is_compared(files[k], s, min_lines),
    ensures
        bodies(files, min_lines).contains(body_in(files[k], s)),
{
    let file = files[k];
    let b = body_in(file, s);
    let all = functions(body_of(file.module));
    let f = comparable_body(site_of(file.source@, file.path@, seq![]), min_lines);
    law_functions_stand_in_the_body(body_of(file.module), s);
    let i = all.index_of(s);
    assert(f(s)[0] == b);
    assert(f(all[i]).contains(b));
    lemma_flat_map_contains(all, f, b);
    assert(file_bodies(min_lines)(files[k]).contains(b));
    lemma_flat_map_contains(files, file_bodies(min_lines), b);
}

/// Two functions of a package, at different places, that are long enough, do something and
/// have bodies of the same structure are reported together.
pub proof fn law_copied_functions_are_reported(
    pkg_name: Seq<char>,
    files: Seq<ParsedFile>,
    min_lines: nat,
    j: int,
    s: &Stmt,
    k: int,
    t: &Stmt,
)
    requires
        0 <= j < files.len(),
        0 <= k < files.len(),
        is_compared(files[j], s, min_lines),
        is_compared(files[k], t, min_lines),
        block_shape(def_body(s)) == block_shape(def_body(t)),
        body_in(files[j], s) != body_in(files[k], t),
    ensures
        exists|i: int|
            0 <= i < duplicate_functions(pkg_name, files, min_lines).len() && is_on_copies(
                #[trigger] duplicate_functions(pkg_name, files, min_lines)[i],
                pkg_name,
                group(bodies(files, min_lines), dump(def_body(s))),
            ),
        group(bodies(files, min_lines), dump(def_body(s))).contains(body_in(files[j], s)),
        group(bodies(files, min_lines), dump(def_body(s))).contains(body_in(files[k], t)),
{
    let all = bodies(files, min_lines);
    let a = body_in(files[j], s);
    let b = body_in(files[k], t);
    lemma_compared(files, min_lines, j, s);
    lemma_compared(files, min_lines, k, t);
    law_dumps_tell_blocks_apart(def_body(s), def_body(t));
    law_groups_hold_equal_bodies(all, a.key);
    let m = all.index_of(a);
    let n = all.index_of(b);
    if m < n {
        law_equal_bodies_are_reported(pkg_name, files, min_lines, m, n);
    } else {
        law_equal_bodies_are_reported(pkg_name, files, min_lines, n, m);
    }
    let r = duplicate_functions(pkg_name, files, min_lines);
    let x = duplicate_issue(pkg_name, all)(a.key)[0];
    let i = r.index_of(x);
    let same = group(all, a.key);
    let head = "Identical body in "@ + dec(same.len()) + " places: "@;
    assert(x.message.take(head.len() as int) =~= head);
    assert(is_on_copies(r[i], pkg_name, same));
}

/// Whether a finding is on the functions of a group: it stands where the first of them stands
/// and tells how many they are.
pub open spec fn is_on_copies(x: IssueView, pkg_name: Seq<char>, same: Seq<BodyView>) -> bool {
    &&& x.rule == "duplicate-function-body"@
    &&& x.severity == Severity::Warning
    &&& x.package == pkg_name
    &&& same.len() >= 2
    &&& x.file == same[0].path
    &&& x.line == same[0].line
    &&& ("Identical body in "@ + dec(same.len()) + " places: "@).is_prefix_of(x.message)
}

/// What is compared are functions of the files that are long enough and do something.
pub proof fn law_compared_bodies_do_something(
    files: Seq<ParsedFile>,
    min_lines: nat,
    b: BodyView,
) -> (r: (int, Stmt))
    requires
        bodies(files, min_lines).contains(b),
    ensures
        0 <= r.0 < files.len(),
        is_compared(files[r.0], &r.1, min_lines),
        b == body_in(files[r.0], &r.1),
{
    lemma_flat_map_contains(files, file_bodies(min_lines), b);
    let k = choose|k: int|
        0 <= k < files.len() && file_bodies(min_lines)(#[trigger] files[k]).contains(b);
    let file = files[k];
    let all = functions(body_of(file.module));
    let f = comparable_body(site_of(file.source@, file.path@, seq![]), min_lines);
    lemma_flat_map_contains(all, f, b);
    let i = choose|i: int| 0 <= i < all.len() && f(#[trigger] all[i]).contains(b);
    assert(all.contains(all[i]));
    law_functions_stand_in_the_body(body_of(file.module), all[i]);
    (k, *all[i])
}

/// The places of a body are listed by path and then by line, each with its path, its line and
/// the name of the function; the finding is on the first. Findings come by path and then by line.
pub proof fn law_copies_are_listed_by_place(
    pkg_name: Seq<char>,
    all: Seq<BodyView>,
    key: Seq<char>,
    i: int,
    j: int,
)
    ensures
        ({
            let g = group(all, key);
            let r = duplicate_issue(pkg_name, all)(key);
            &&& 0 <= i < j < g.len() ==> text_le(g[i].path, g[j].path) && (g[i].path == g[j].path
                ==> g[i].line <= g[j].line)
            &&& g.len() >= 2 ==> r.len() == 1 && r[0].message == "Identical body in "@ + dec(
                g.len(),
            ) + " places: "@ + join(locations(g), ", "@)
            &&& locations(g).len() == g.len()
            &&& 0 <= i < g.len() ==> locations(g)[i] == g[i].path + ":"@ + dec(g[i].line) + " ("@
                + g[i].name + ")"@
        }),
        ({
            let r = shared_bodies(pkg_name, all);
            0 <= i < j < r.len() ==> path_le(r[i].file, r[j].file) && (path_le(
                r[j].file,
                r[i].file,
            ) ==> r[i].line <= r[j].line)
        }),
{
    let g = group(all, key);
    lemma_by_place_is_total();
    lemma_sorted(all.flat_map(body_like(key)), by_place());
    if 0 <= i < j < g.len() {
        assert(by_place()(g[i], g[j]));
        lemma_text_le_total(g[i].path, g[j].path);
    }
    lemma_by_file_is_total();
    lemma_sorted(keys(all).flat_map(duplicate_issue(pkg_name, all)), by_file());
    let r = shared_bodies(pkg_name, all);
    if 0 <= i < j < r.len() {
        assert(by_file()(r[i], r[j]));
    }
}

} // verus!
