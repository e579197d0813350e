//! Functions that exist twice, once for synchronous and once for asynchronous
//! callers.

use crate::ast_helpers::{
    collect_functions_with_class_context, def_name, def_range, line_count, line_in, member_stmts,
    members, FuncNode, LineIndex,
};
use crate::checks::common::{body_of, module_body, none, site_of, SiteView};
use crate::checks::functions::function_lines;
use crate::checks::package_level::ParsedFile;
use crate::config::MIN_TWIN_FUNCTION_LINES;
use crate::models::{
    finding, issue, issue_views, opt_text, push_issue, Issue, IssueView, Ratio, Severity,
};
use crate::order::{lemma_sorted_texts, sort_texts, sorted_texts};
use crate::paths::{components, components_of};
use crate::similarity::{common, is_similar, percent, sequence_matcher_ratio};
use crate::syntax::range_start;
use crate::table::{
    count_rows, lemma_row_of, lookup, new_table, put, put_row, row_at, row_of, rows, value_at,
};
use crate::text::{
    add_text, dec, distinct_texts, ends_with, lemma_distinct_texts, same, starts_with, text_le,
    texts,
};
use crate::unparse::{is_writable, stmt_text, unparse_function, writable};
use indexmap::IndexMap;
use rustpython_ast::Stmt;
use vstd::prelude::*;
use vstd::string::*;

verus! {

// ── Names of twins ──────────────────────────────────────────────────────────

/// The names that the twin of a function may have, as they are made up.
pub open spec fn made_up_names(name: Seq<char>) -> Seq<Seq<char>> {
    seq!["a"@ + name, name + "_async"@, "async_"@ + name, "_async_"@ + name] + (if name.len() > 1
        && name[0] == 'a' {
        seq![name.skip(1)]
    } else {
        seq![]
    }) + (if "_async_"@.is_prefix_of(name) {
        seq![name.skip("_async_"@.len() as int)]
    } else {
        seq![]
    }) + (if "_async"@.is_suffix_of(name) {
        seq![name.take(name.len() - "_async"@.len())]
    } else {
        seq![]
    }) + (if "async_"@.is_prefix_of(name) {
        seq![name.skip("async_"@.len() as int)]
    } else {
        seq![]
    }) + (if "_sync"@.is_suffix_of(name) {
        seq![
            name.take(name.len() - "_sync"@.len()),
            name.take(name.len() - "_sync"@.len()) + "_async"@,
        ]
    } else {
        seq![]
    })
}

/// The names that the twin of a function may have, each once, in order.
pub open spec fn twin_names(name: Seq<char>) -> Seq<Seq<char>> {
    sorted_texts(distinct_texts(made_up_names(name)))
}

fn push_name(v: &mut Vec<String>, x: String)
    ensures
        texts(final(v)@) == texts(old(v)@) + seq![x@],
{
    v.push(x);
    assert(texts(v@) =~= texts(old(v)@) + seq![x@]);
}

fn without_front(name: &str, n: usize) -> (r: String)
    requires
        n <= name@.len(),
    ensures
        r@ == name@.skip(n as int),
{
    assert(name@.subrange(n as int, name@.len() as int) =~= name@.skip(n as int));
    name.substring_char(n, name.unicode_len()).to_owned()
}

fn without_back(name: &str, n: usize) -> (r: String)
    requires
        n <= name@.len(),
    ensures
        r@ == name@.take(name@.len() - n),
{
    let end: usize = name.unicode_len() - n;
    assert(name@.subrange(0, end as int) =~= name@.take(end as int));
    name.substring_char(0, end).to_owned()
}

fn make_up_names(name: &str) -> (r: Vec<String>)
    ensures
        texts(r@) == made_up_names(name@),
{
    let mut out: Vec<String> = Vec::new();
    out.push("a".to_owned().concat(name));
    out.push(name.to_owned().concat("_async"));
    out.push("async_".to_owned().concat(name));
    out.push("_async_".to_owned().concat(name));
    let ghost plain = seq!["a"@ + name@, name@ + "_async"@, "async_"@ + name@, "_async_"@ + name@];
    assert(texts(out@) =~= plain);
    let ghost nothing: Seq<Seq<char>> = seq![];
    if name.unicode_len() > 1 && name.get_char(0) == 'a' {
        push_name(&mut out, without_front(name, 1));
    } else {
        assert(texts(out@) =~= texts(out@) + nothing);
    }
    if starts_with(name, "_async_") {
        push_name(&mut out, without_front(name, "_async_".unicode_len()));
    } else {
        assert(texts(out@) =~= texts(out@) + nothing);
    }
    if ends_with(name, "_async") {
        push_name(&mut out, without_back(name, "_async".unicode_len()));
    } else {
        assert(texts(out@) =~= texts(out@) + nothing);
    }
    if starts_with(name, "async_") {
        push_name(&mut out, without_front(name, "async_".unicode_len()));
    } else {
        assert(texts(out@) =~= texts(out@) + nothing);
    }
    let ghost before = texts(out@);
    if ends_with(name, "_sync") {
        let short = without_back(name, "_sync".unicode_len());
        let long = short.clone().concat("_async");
        push_name(&mut out, short);
        push_name(&mut out, long);
        assert(texts(out@) =~= before + seq![short@, long@]);
    } else {
        assert(before =~= before + nothing);
    }
    out
}

/// The names that the twin of a function may have, each once, in order.
pub fn twin_candidates(name: &str) -> (r: Vec<String>)
    ensures
        texts(r@) == twin_names(name@),
{
    let all = make_up_names(name);
    let ghost every = texts(all@);
    let mut out: Vec<String> = Vec::new();
    let mut i: usize = 0;
    assert(texts(out@) =~= distinct_texts(every.take(0)));
    while i < all.len()
        invariant
            i <= all@.len(),
            every == texts(all@),
            texts(out@) == distinct_texts(every.take(i as int)),
        decreases all@.len() - i,
    {
        proof {
            assert(every.take(i + 1).drop_last() =~= every.take(i as int));
            assert(every[i as int] == all@[i as int]@);
        }
        add_text(&mut out, all[i].as_str());
        i += 1;
    }
    assert(every.take(i as int) =~= every);
    sort_texts(&out)
}

/// The names of a possible twin come each once and in order.
pub proof fn law_twin_names_are_sorted_and_distinct(name: Seq<char>)
    ensures
        twin_names(name).no_duplicates(),
        forall|i: int, j: int|
            0 <= i < j < twin_names(name).len() ==> text_le(
                #[trigger] twin_names(name)[i],
                #[trigger] twin_names(name)[j],
            ),
        forall|x: Seq<char>| twin_names(name).contains(x) <==> made_up_names(name).contains(x),
{
    let kept = distinct_texts(made_up_names(name));
    lemma_distinct_texts(made_up_names(name));
    lemma_sorted_texts(kept);
    kept.lemma_multiset_has_no_duplicates();
    twin_names(name).lemma_multiset_has_no_duplicates_conv();
}

/// Where one name is made from another by putting `a`, `async_` or `_async_` before it or
/// `_async` behind it, each may be the twin of the other.
pub proof fn law_twin_names_are_mutual(name: Seq<char>)
    requires
        name.len() > 0,
    ensures
        twin_names(name).contains("a"@ + name) && twin_names("a"@ + name).contains(name),
        twin_names(name).contains("async_"@ + name) && twin_names("async_"@ + name).contains(name),
        twin_names(name).contains("_async_"@ + name) && twin_names("_async_"@ + name).contains(
            name,
        ),
        twin_names(name).contains(name + "_async"@) && twin_names(name + "_async"@).contains(name),
{
    lemma_short_is_mutual(name);
    lemma_long_is_mutual(name);
    lemma_hidden_is_mutual(name);
    lemma_back_is_mutual(name);
}

proof fn lemma_short_is_mutual(name: Seq<char>)
    requires
        name.len() > 0,
    ensures
        twin_names(name).contains("a"@ + name),
        twin_names("a"@ + name).contains(name),
{
    reveal_strlit("a");
    let front = "a"@ + name;
    law_twin_names_are_sorted_and_distinct(name);
    law_twin_names_are_sorted_and_distinct(front);
    assert(made_up_names(name)[0] == front);
    assert(front.skip(1) =~= name);
    assert(made_up_names(front)[4] == name);
}

proof fn lemma_long_is_mutual(name: Seq<char>)
    ensures
        twin_names(name).contains("async_"@ + name),
        twin_names("async_"@ + name).contains(name),
{
    let long = "async_"@ + name;
    law_twin_names_are_sorted_and_distinct(name);
    law_twin_names_are_sorted_and_distinct(long);
    assert(made_up_names(name)[2] == long);
    assert(long.skip("async_"@.len() as int) =~= name);
    assert("async_"@.is_prefix_of(long)) by {
        assert("async_"@ =~= long.subrange(0, "async_"@.len() as int));
    }
    lemma_made_up_without_async(long, name);
}

proof fn lemma_hidden_is_mutual(name: Seq<char>)
    ensures
        twin_names(name).contains("_async_"@ + name),
        twin_names("_async_"@ + name).contains(name),
{
    reveal_strlit("_async_");
    let hidden = "_async_"@ + name;
    law_twin_names_are_sorted_and_distinct(name);
    law_twin_names_are_sorted_and_distinct(hidden);
    assert(made_up_names(name)[3] == hidden);
    assert(hidden.skip("_async_"@.len() as int) =~= name);
    assert("_async_"@.is_prefix_of(hidden)) by {
        assert("_async_"@ =~= hidden.subrange(0, "_async_"@.len() as int));
    }
    assert(hidden[0] == '_');
    assert(made_up_names(hidden)[4] == name);
}

proof fn lemma_back_is_mutual(name: Seq<char>)
    ensures
        twin_names(name).contains(name + "_async"@),
        twin_names(name + "_async"@).contains(name),
{
    let back = name + "_async"@;
    law_twin_names_are_sorted_and_distinct(name);
    law_twin_names_are_sorted_and_distinct(back);
    assert(made_up_names(name)[1] == back);
    assert(back.take(back.len() - "_async"@.len()) =~= name);
    assert("_async"@.is_suffix_of(back)) by {
        assert("_async"@ =~= back.subrange(name.len() as int, back.len() as int));
    }
    lemma_made_up_without_back(back, name);
}

proof fn lemma_made_up_without_async(long: Seq<char>, name: Seq<char>)
    requires
        "async_"@.is_prefix_of(long),
        long.skip("async_"@.len() as int) == name,
    ensures
        made_up_names(long).contains(name),
{
    let before = (if long.len() > 1 && long[0] == 'a' {
        1int
    } else {
        0int
    }) + (if "_async_"@.is_prefix_of(long) {
        1int
    } else {
        0int
    }) + (if "_async"@.is_suffix_of(long) {
        1int
    } else {
        0int
    });
    assert(made_up_names(long)[4 + before] == name);
}

proof fn lemma_made_up_without_back(back: Seq<char>, name: Seq<char>)
    requires
        "_async"@.is_suffix_of(back),
        back.take(back.len() - "_async"@.len()) == name,
    ensures
        made_up_names(back).contains(name),
{
    let before = (if back.len() > 1 && back[0] == 'a' {
        1int
    } else {
        0int
    }) + (if "_async_"@.is_prefix_of(back) {
        1int
    } else {
        0int
    });
    assert(made_up_names(back)[4 + before] == name);
}

// ── Functions by scope ──────────────────────────────────────────────────────

/// A function: the number of its file, the name of the nearest class around it, and
/// its definition.
pub struct MemberView<'a> {
    pub file: nat,
    pub class: Option<Seq<char>>,
    pub stmt: &'a Stmt,
}

/// A function: the number of its file, the name of the nearest class around it, and
/// its definition.
struct Member<'a> {
    file: usize,
    class: Option<String>,
    func: FuncNode<'a>,
}

impl<'a> Member<'a> {
    spec fn view(self) -> MemberView<'a> {
        MemberView { file: self.file as nat, class: opt_text(self.class), stmt: self.func.stmt }
    }
}

spec fn member_views<'a>(v: Seq<Member<'a>>) -> Seq<MemberView<'a>> {
    v.map_values(|m: Member<'a>| m@)
}

/// A function of the file with the given number.
pub open spec fn member_of<'a>(file: nat) -> spec_fn((Option<Seq<char>>, &'a Stmt)) -> MemberView<
    'a,
> {
    |m: (Option<Seq<char>>, &'a Stmt)| MemberView { file, class: m.0, stmt: m.1 }
}

/// The functions of a package, file by file.
pub open spec fn all_members<'a>(files: Seq<ParsedFile>) -> Seq<MemberView<'a>>
    decreases files.len(),
{
    if files.len() == 0 {
        seq![]
    } else {
        all_members(files.drop_last()) + members(body_of(files.last().module)).map_values(
            member_of((files.len() - 1) as nat),
        )
    }
}

fn add_members<'a>(out: &mut Vec<Member<'a>>, file: usize, module: &'a rustpython_ast::Mod)
    requires
        forall|k: int| 0 <= k < old(out)@.len() ==> (#[trigger] old(out)@[k]).func.well_formed(),
    ensures
        member_views(final(out)@) == member_views(old(out)@) + members(
            body_of(*module),
        ).map_values(member_of(file as nat)),
        forall|k: int|
            0 <= k < final(out)@.len() ==> (#[trigger] final(out)@[k]).func.well_formed(),
{
    let mut found = collect_functions_with_class_context(module_body(module));
    let ghost whole = found@;
    let ghost all = members(body_of(*module));
    let ghost f = member_of(file as nat);
    let ghost base = member_views(out@);
    let ghost mut n: int = 0;
    assert(whole.skip(0) =~= whole);
    assert(base =~= base + all.take(0).map_values(f));
    while found.len() > 0
        invariant
            0 <= n <= whole.len(),
            found@ == whole.skip(n),
            all == member_stmts(whole),
            f == member_of(file as nat),
            forall|k: int| 0 <= k < whole.len() ==> (#[trigger] whole[k]).1.well_formed(),
            forall|k: int| 0 <= k < out@.len() ==> (#[trigger] out@[k]).func.well_formed(),
            member_views(out@) == base + all.take(n).map_values(f),
        decreases found@.len(),
    {
        let ghost before = member_views(out@);
        let (class, func) = found.remove(0);
        assert((class, func) == whole[n]);
        let one = Member { file, class, func };
        out.push(one);
        proof {
            assert(found@ =~= whole.skip(n + 1));
            assert(all[n] == (opt_text(class), func.stmt));
            assert(one@ == f(all[n]));
            assert(member_views(out@) =~= before.push(one@));
            assert(all.take(n + 1).map_values(f) =~= all.take(n).map_values(f).push(one@));
            assert(base + all.take(n).map_values(f).push(one@) =~= before.push(one@));
            n = n + 1;
        }
    }
    assert(all.take(n) =~= all);
}

fn collect_members<'a>(files: &'a [ParsedFile]) -> (r: Vec<Member<'a>>)
    ensures
        member_views(r@) == all_members(files@),
        forall|k: int| 0 <= k < r@.len() ==> (#[trigger] r@[k]).func.well_formed(),
{
    let mut out: Vec<Member<'a>> = Vec::new();
    let mut i: usize = 0;
    assert(member_views(out@) =~= all_members(files@.take(0)));
    while i < files.len()
        invariant
            i <= files@.len(),
            member_views(out@) == all_members(files@.take(i as int)),
            forall|k: int| 0 <= k < out@.len() ==> (#[trigger] out@[k]).func.well_formed(),
        decreases files@.len() - i,
    {
        proof {
            assert(files@.take(i + 1).drop_last() =~= files@.take(i as int));
            assert(files@.take(i + 1).last() == files@[i as int]);
        }
        add_members(&mut out, i, &files[i].module);
        i += 1;
    }
    assert(files@.take(i as int) =~= files@);
    out
}

proof fn lemma_member_files(files: Seq<ParsedFile>, i: int)
    requires
        0 <= i < all_members(files).len(),
    ensures
        all_members(files)[i].file < files.len(),
    decreases files.len(),
{
    let rest = all_members(files.drop_last());
    if i < rest.len() {
        lemma_member_files(files.drop_last(), i);
    }
}

// ── Files with the same path ────────────────────────────────────────────────

/// Whether two paths name the same file.
pub open spec fn same_path(a: Seq<char>, b: Seq<char>) -> bool {
    components(a) == components(b)
}

pub fn is_same_path(a: &str, b: &str) -> (r: bool)
    ensures
        r == same_path(a@, b@),
{
    let x = components_of(a);
    let y = components_of(b);
    if x.len() != y.len() {
        assert(texts(x@).len() != texts(y@).len());
        return false;
    }
    let mut i: usize = 0;
    while i < x.len()
        invariant
            x@.len() == y@.len(),
            i <= x@.len(),
            texts(x@) == components(a@),
            texts(y@) == components(b@),
            forall|k: int| 0 <= k < i ==> texts(x@)[k] == texts(y@)[k],
        decreases x@.len() - i,
    {
        if !same(x[i].as_str(), y[i].as_str()) {
            assert(texts(x@)[i as int] == x@[i as int]@);
            assert(texts(y@)[i as int] == y@[i as int]@);
            return false;
        }
        i += 1;
    }
    assert(texts(x@) =~= texts(y@));
    true
}

/// The first file, from number `from` on, with the path of file `i`.
pub open spec fn first_same(files: Seq<ParsedFile>, i: int, from: int) -> int
    decreases i - from,
{
    if from >= i || same_path(files[from].path@, files[i].path@) {
        from
    } else {
        first_same(files, i, from + 1)
    }
}

/// The last file, before number `to`, with the path of file `i`.
pub open spec fn last_same(files: Seq<ParsedFile>, i: int, to: int) -> int
    decreases to - i,
{
    if to - 1 <= i || same_path(files[to - 1].path@, files[i].path@) {
        to - 1
    } else {
        last_same(files, i, to - 1)
    }
}

/// The file under whose path the functions of file `i` are reported: the first with
/// that path.
pub open spec fn owner(files: Seq<ParsedFile>, i: int) -> int {
    first_same(files, i, 0)
}

/// The file whose lines count for the functions of file `i`: the last with that path.
pub open spec fn reader(files: Seq<ParsedFile>, i: int) -> int {
    last_same(files, i, files.len() as int)
}

fn find_owner(files: &[ParsedFile], i: usize) -> (r: usize)
    requires
        i < files@.len(),
    ensures
        r == owner(files@, i as int),
        r <= i,
{
    let mut k: usize = 0;
    while k < i && !is_same_path(files[k].path.as_str(), files[i].path.as_str())
        invariant
            k <= i < files@.len(),
            owner(files@, i as int) == first_same(files@, i as int, k as int),
        decreases i - k,
    {
        k += 1;
    }
    k
}

fn find_reader(files: &[ParsedFile], i: usize) -> (r: usize)
    requires
        i < files@.len(),
    ensures
        r == reader(files@, i as int),
        i <= r < files@.len(),
{
    let mut k: usize = files.len() - 1;
    while k > i && !is_same_path(files[k].path.as_str(), files[i].path.as_str())
        invariant
            i <= k < files@.len(),
            reader(files@, i as int) == last_same(files@, i as int, k + 1),
        decreases k,
    {
        k -= 1;
    }
    k
}

// ── Tables ──────────────────────────────────────────────────────────────────

/// A class as part of a key: a class whose name is empty is still one.
pub open spec fn class_key(class: Option<Seq<char>>) -> Seq<char> {
    match class {
        Some(name) => ":"@ + name,
        None => seq![],
    }
}

/// The scopes in which functions stand, each a file and a class, with their numbers;
/// and for each scope the names of its functions, with the number of the function that
/// has the name last.
pub struct Tables {
    pub scopes: Seq<((usize, Seq<char>), usize)>,
    pub names: Seq<((usize, Seq<char>), usize)>,
}

/// The key of the scope of a function.
pub open spec fn scope_key<'a>(files: Seq<ParsedFile>, m: MemberView<'a>) -> (usize, Seq<char>) {
    (owner(files, m.file as int) as usize, class_key(m.class))
}

/// The scopes with the scope of one more function.
pub open spec fn with_scope(
    scopes: Seq<((usize, Seq<char>), usize)>,
    key: (usize, Seq<char>),
) -> Seq<((usize, Seq<char>), usize)> {
    if lookup(scopes, key) is Some {
        scopes
    } else {
        put(scopes, key, scopes.len() as usize)
    }
}

/// The tables of a list of functions.
pub open spec fn tables<'a>(files: Seq<ParsedFile>, ms: Seq<MemberView<'a>>) -> Tables
    decreases ms.len(),
{
    if ms.len() == 0 {
        Tables { scopes: seq![], names: seq![] }
    } else {
        let t = tables(files, ms.drop_last());
        let m = ms.last();
        let key = scope_key(files, m);
        let scopes = with_scope(t.scopes, key);
        Tables {
            scopes,
            names: put(
                t.names,
                (lookup(scopes, key)->0, def_name(m.stmt)),
                (ms.len() - 1) as usize,
            ),
        }
    }
}

spec fn tables_ok(t: Tables, files: nat, count: nat) -> bool {
    &&& t.scopes.len() <= count
    &&& forall|i: int|
        0 <= i < t.scopes.len() ==> (#[trigger] t.scopes[i]).1 == i && t.scopes[i].0.0 < files
    &&& forall|i: int|
        0 <= i < t.names.len() ==> (#[trigger] t.names[i]).1 < count && t.names[i].0.0
            < t.scopes.len()
}

proof fn lemma_tables<'a>(files: Seq<ParsedFile>, ms: Seq<MemberView<'a>>)
    requires
        ms.len() <= usize::MAX,
        files.len() <= usize::MAX,
        forall|i: int| 0 <= i < ms.len() ==> (#[trigger] ms[i]).file < files.len(),
    ensures
        tables_ok(tables(files, ms), files.len(), ms.len()),
    decreases ms.len(),
{
    if ms.len() > 0 {
        let rest = ms.drop_last();
        let m = ms.last();
        assert forall|i: int| 0 <= i < rest.len() implies (#[trigger] rest[i]).file
            < files.len() by {
            assert(rest[i] == ms[i]);
        }
        lemma_tables(files, rest);
        let t = tables(files, rest);
        let key = scope_key(files, m);
        assert(ms[ms.len() - 1].file < files.len());
        lemma_owner(files, m.file as int, 0);
        let scopes = with_scope(t.scopes, key);
        lemma_row_of(t.scopes, key);
        lemma_row_of(scopes, key);
        if lookup(t.scopes, key) is None {
            let p = t.scopes.len() as int;
            assert(scopes[p].0 == key);
            assert(row_of(scopes, key) <= p) by {
                if row_of(scopes, key) > p {
                    assert(scopes[p].0 != key);
                }
            }
        }
        let number = lookup(scopes, key)->0;
        assert(number < scopes.len()) by {
            assert(scopes[row_of(scopes, key)].1 == row_of(scopes, key));
        }
        lemma_row_of(t.names, (number, def_name(m.stmt)));
    }
}

proof fn lemma_owner(files: Seq<ParsedFile>, i: int, from: int)
    requires
        0 <= from <= i < files.len(),
    ensures
        from <= first_same(files, i, from) <= i,
    decreases i - from,
{
    if from < i && !same_path(files[from].path@, files[i].path@) {
        lemma_owner(files, i, from + 1);
    }
}

fn build_tables<'a>(files: &[ParsedFile], ms: &Vec<Member<'a>>) -> (r: (
    IndexMap<(usize, String), usize>,
    IndexMap<(usize, String), usize>,
))
    requires
        member_views(ms@) == all_members(files@),
        forall|k: int| 0 <= k < ms@.len() ==> (#[trigger] ms@[k]).func.well_formed(),
    ensures
        (Tables { scopes: rows(r.0), names: rows(r.1) }) == tables(files@, member_views(ms@)),
{
    let ghost all = member_views(ms@);
    let mut scopes = new_table();
    let mut names = new_table();
    let mut i: usize = 0;
    while i < ms.len()
        invariant
            i <= ms@.len(),
            all == member_views(ms@),
            all == all_members(files@),
            forall|k: int| 0 <= k < ms@.len() ==> (#[trigger] ms@[k]).func.well_formed(),
            (Tables { scopes: rows(scopes), names: rows(names) }) == tables(
                files@,
                all.take(i as int),
            ),
        decreases ms@.len() - i,
    {
        let m = &ms[i];
        proof {
            assert(all.take(i + 1).drop_last() =~= all.take(i as int));
            assert(all.take(i + 1).last() == m@);
            assert(all[i as int] == m@);
            lemma_member_files(files@, i as int);
        }
        let file: usize = find_owner(files, m.file);
        let class = match &m.class {
            Some(name) => ":".to_owned().concat(name.as_str()),
            None => String::new(),
        };
        let ghost key = scope_key(files@, m@);
        assert(class@ =~= key.1);
        let number: usize = match value_at(&scopes, file, class.as_str()) {
            Some(number) => number,
            None => {
                let number: usize = count_rows(&scopes);
                let ghost before = rows(scopes);
                put_row(&mut scopes, file, class, number);
                proof {
                    crate::table::law_put_then_lookup(before, key, key, number);
                }
                number
            },
        };
        put_row(&mut names, number, m.func.name.clone(), i);
        i += 1;
    }
    assert(all.take(i as int) =~= all);
    (scopes, names)
}

// ── Pairs ───────────────────────────────────────────────────────────────────

/// Two functions of one scope, the second of which has a name that the twin of the
/// first may have.
pub struct PairView {
    /// The number of the file under whose path the pair is reported.
    pub file: nat,
    /// The class as part of a key.
    pub class: Seq<char>,
    pub name: Seq<char>,
    pub other: Seq<char>,
    /// The numbers of the functions.
    pub left: nat,
    pub right: nat,
}

/// Two functions of one scope.
struct Pair {
    file: usize,
    class: String,
    name: String,
    other: String,
    left: usize,
    right: usize,
}

impl Pair {
    spec fn view(self) -> PairView {
        PairView {
            file: self.file as nat,
            class: self.class@,
            name: self.name@,
            other: self.other@,
            left: self.left as nat,
            right: self.right as nat,
        }
    }
}

spec fn pair_views(v: Seq<Pair>) -> Seq<PairView> {
    v.map_values(|p: Pair| p@)
}

/// The lines of the functions that are reported in a file.
pub open spec fn lines_of_file(files: Seq<ParsedFile>, file: int) -> SiteView {
    site_of(files[reader(files, file)].source@, files[file].path@, seq![])
}

/// The pair of a function and the one that has the given name in its scope.
pub open spec fn pair_with(
    t: Tables,
    scope: ((usize, Seq<char>), usize),
    row: ((usize, Seq<char>), usize),
) -> spec_fn(Seq<char>) -> Seq<PairView> {
    |other: Seq<char>|
        match lookup(t.names, (scope.1, other)) {
            Some(right) => if other == row.0.1 {
                seq![]
            } else {
                seq![
                    PairView {
                        file: scope.0.0 as nat,
                        class: scope.0.1,
                        name: row.0.1,
                        other,
                        left: row.1 as nat,
                        right: right as nat,
                    },
                ]
            },
            None => seq![],
        }
}

/// The pairs of a function that is long enough, if it belongs to the scope.
pub open spec fn pairs_of<'a>(
    files: Seq<ParsedFile>,
    ms: Seq<MemberView<'a>>,
    t: Tables,
    scope: ((usize, Seq<char>), usize),
) -> spec_fn(((usize, Seq<char>), usize)) -> Seq<PairView> {
    |row: ((usize, Seq<char>), usize)|
        if row.0.0 == scope.1 && function_lines(
            lines_of_file(files, scope.0.0 as int),
            ms[row.1 as int].stmt,
        ) >= MIN_TWIN_FUNCTION_LINES {
            twin_names(row.0.1).flat_map(pair_with(t, scope, row))
        } else {
            seq![]
        }
}

/// The pairs of a scope.
pub open spec fn pairs_in<'a>(
    files: Seq<ParsedFile>,
    ms: Seq<MemberView<'a>>,
    t: Tables,
) -> spec_fn(((usize, Seq<char>), usize)) -> Seq<PairView> {
    |scope: ((usize, Seq<char>), usize)| t.names.flat_map(pairs_of(files, ms, t, scope))
}

/// The pairs of a package: scope by scope, function by function, name by name.
pub open spec fn pairs<'a>(files: Seq<ParsedFile>, ms: Seq<MemberView<'a>>) -> Seq<PairView> {
    let t = tables(files, ms);
    t.scopes.flat_map(pairs_in(files, ms, t))
}

fn add_pairs_of(
    out: &mut Vec<Pair>,
    names: &IndexMap<(usize, String), usize>,
    scope: (usize, &str, usize),
    row: (usize, &str, usize),
    Ghost(t): Ghost<Tables>,
)
    requires
        t.names == rows(*names),
    ensures
        pair_views(final(out)@) == pair_views(old(out)@) + twin_names(row.1@).flat_map(
            pair_with(t, ((scope.0, scope.1@), scope.2), ((row.0, row.1@), row.2)),
        ),
{
    let candidates = twin_candidates(row.1);
    let ghost all = texts(candidates@);
    let ghost f = pair_with(t, ((scope.0, scope.1@), scope.2), ((row.0, row.1@), row.2));
    let ghost base = pair_views(out@);
    let mut i: usize = 0;
    assert(base =~= base + all.take(0).flat_map(f));
    while i < candidates.len()
        invariant
            i <= candidates@.len(),
            all == texts(candidates@),
            f == pair_with(t, ((scope.0, scope.1@), scope.2), ((row.0, row.1@), row.2)),
            t.names == rows(*names),
            pair_views(out@) == base + all.take(i as int).flat_map(f),
        decreases candidates@.len() - i,
    {
        let other = candidates[i].as_str();
        let ghost before = pair_views(out@);
        proof {
            all.lemma_flat_map_take_append(f, i as int);
            assert(all[i as int] == other@);
            assert(before + seq![] =~= before);
        }
        if let Some(right) = value_at(names, scope.2, other) {
            if !same(other, row.1) {
                let one = Pair {
                    file: scope.0,
                    class: scope.1.to_owned(),
                    name: row.1.to_owned(),
                    other: other.to_owned(),
                    left: row.2,
                    right,
                };
                out.push(one);
                assert(pair_views(out@) =~= before + seq![one@]);
            }
        }
        assert(pair_views(out@) =~= before + f(all[i as int]));
        assert(base + all.take(i as int).flat_map(f) + f(all[i as int]) =~= base + all.take(
            i + 1,
        ).flat_map(f));
        i += 1;
    }
    assert(all.take(i as int) =~= all);
}

spec fn index_ok(indices: Seq<LineIndex>, files: Seq<ParsedFile>) -> bool {
    &&& indices.len() == files.len()
    &&& forall|k: int|
        0 <= k < files.len() ==> (#[trigger] indices[k])@ == site_of(
            files[k].source@,
            seq![],
            seq![],
        ).starts
}

fn add_pairs_in<'a>(
    out: &mut Vec<Pair>,
    files: &[ParsedFile],
    indices: &Vec<LineIndex>,
    ms: &Vec<Member<'a>>,
    names: &IndexMap<(usize, String), usize>,
    scope: (usize, &str, usize),
    Ghost(t): Ghost<Tables>,
)
    requires
        t.names == rows(*names),
        tables_ok(t, files@.len(), ms@.len()),
        forall|k: int| 0 <= k < ms@.len() ==> (#[trigger] ms@[k]).func.well_formed(),
        index_ok(indices@, files@),
        scope.0 < files@.len(),
    ensures
        pair_views(final(out)@) == pair_views(old(out)@) + pairs_in(files@, member_views(ms@), t)(
            ((scope.0, scope.1@), scope.2),
        ),
{
    let ghost key = ((scope.0, scope.1@), scope.2);
    let ghost all = t.names;
    let ghost f = pairs_of(files@, member_views(ms@), t, key);
    let ghost base = pair_views(out@);
    let index = &indices[find_reader(files, scope.0)];
    let ghost site = lines_of_file(files@, scope.0 as int);
    assert(index@ == site.starts);
    let mut i: usize = 0;
    assert(base =~= base + all.take(0).flat_map(f));
    let count: usize = count_rows(names);
    while i < count
        invariant
            i <= count == all.len(),
            all == t.names,
            t.names == rows(*names),
            tables_ok(t, files@.len(), ms@.len()),
            forall|k: int| 0 <= k < ms@.len() ==> (#[trigger] ms@[k]).func.well_formed(),
            site == lines_of_file(files@, scope.0 as int),
            index@ == site.starts,
            key == ((scope.0, scope.1@), scope.2),
            f == pairs_of(files@, member_views(ms@), t, key),
            pair_views(out@) == base + all.take(i as int).flat_map(f),
        decreases count - i,
    {
        let ghost before = pair_views(out@);
        proof {
            all.lemma_flat_map_take_append(f, i as int);
            assert(before + seq![] =~= before);
            assert(all[i as int].1 < ms@.len());
        }
        if let Some(row) = row_at(names, i) {
            assert(all[i as int] == ((row.0, row.1@), row.2));
            if row.0 == scope.2 {
                let func = &ms[row.2].func;
                assert(member_views(ms@)[row.2 as int].stmt == func.stmt);
                let lines: usize = line_count(index, func.start, func.end());
                if lines >= MIN_TWIN_FUNCTION_LINES {
                    add_pairs_of(out, names, scope, row, Ghost(t));
                }
            }
        }
        assert(pair_views(out@) =~= before + f(all[i as int]));
        assert(base + all.take(i as int).flat_map(f) + f(all[i as int]) =~= base + all.take(
            i + 1,
        ).flat_map(f));
        i += 1;
    }
    assert(all.take(i as int) =~= all);
}

fn collect_pairs<'a>(files: &[ParsedFile], indices: &Vec<LineIndex>, ms: &Vec<Member<'a>>) -> (r:
    Vec<Pair>)
    requires
        member_views(ms@) == all_members(files@),
        forall|k: int| 0 <= k < ms@.len() ==> (#[trigger] ms@[k]).func.well_formed(),
        index_ok(indices@, files@),
    ensures
        pair_views(r@) == pairs(files@, member_views(ms@)),
        forall|k: int|
            0 <= k < r@.len() ==> (#[trigger] r@[k]).file < files@.len() && r@[k].left < ms@.len()
                && r@[k].right < ms@.len(),
{
    let ghost every = member_views(ms@);
    let ghost t = tables(files@, every);
    let total: usize = ms.len();
    let file_count: usize = files.len();
    proof {
        assert forall|k: int| 0 <= k < every.len() implies (#[trigger] every[k]).file
            < files@.len() by {
            lemma_member_files(files@, k);
        }
        lemma_tables(files@, every);
    }
    let (scopes, names) = build_tables(files, ms);
    let ghost all = t.scopes;
    let ghost f = pairs_in(files@, every, t);
    let mut out: Vec<Pair> = Vec::new();
    let count: usize = count_rows(&scopes);
    let mut i: usize = 0;
    assert(pair_views(out@) =~= all.take(0).flat_map(f));
    while i < count
        invariant
            i <= count == all.len(),
            all == t.scopes,
            t.scopes == rows(scopes),
            t.names == rows(names),
            every == member_views(ms@),
            tables_ok(t, files@.len(), ms@.len()),
            forall|k: int| 0 <= k < ms@.len() ==> (#[trigger] ms@[k]).func.well_formed(),
            index_ok(indices@, files@),
            f == pairs_in(files@, every, t),
            pair_views(out@) == all.take(i as int).flat_map(f),
        decreases count - i,
    {
        proof {
            all.lemma_flat_map_take_append(f, i as int);
            assert(all[i as int].1 == i && all[i as int].0.0 < files@.len());
        }
        if let Some(scope) = row_at(&scopes, i) {
            add_pairs_in(&mut out, files, indices, ms, &names, scope, Ghost(t));
        }
        i += 1;
    }
    assert(all.take(i as int) =~= all);
    proof {
        assert forall|k: int| 0 <= k < out@.len() implies (#[trigger] out@[k]).file < files@.len()
            && out@[k].left < ms@.len() && out@[k].right < ms@.len() by {
            assert(pair_views(out@)[k] == out@[k]@);
            lemma_pairs_in_range(files@, every, t, all, k);
        }
    }
    out
}

spec fn pair_ok(p: PairView, files: nat, count: nat) -> bool {
    p.file < files && p.left < count && p.right < count
}

proof fn lemma_all_pairs<A>(s: Seq<A>, f: spec_fn(A) -> Seq<PairView>, files: nat, count: nat, k: int)
    requires
        0 <= k < s.flat_map(f).len(),
        forall|i: int, j: int|
            0 <= i < s.len() && 0 <= j < f(s[i]).len() ==> pair_ok(
                #[trigger] f(s[i])[j],
                files,
                count,
            ),
    ensures
        pair_ok(s.flat_map(f)[k], files, count),
    decreases s.len(),
{
    if s.len() == 0 {
        assert(s.flat_map(f) =~= seq![]);
    } else {
        let rest = s.drop_last();
        rest.lemma_flat_map_push(f, s.last());
        assert(s =~= rest.push(s.last()));
        if k < rest.flat_map(f).len() {
            assert forall|i: int, j: int| 0 <= i < rest.len() && 0 <= j < f(
                rest[i],
            ).len() implies pair_ok(#[trigger] f(rest[i])[j], files, count) by {
                assert(rest[i] == s[i]);
            }
            lemma_all_pairs(rest, f, files, count, k);
        } else {
            let last = s.len() - 1;
            let j = k - rest.flat_map(f).len();
            assert(pair_ok(f(s[last])[j], files, count));
        }
    }
}

proof fn lemma_pairs_in_range<'a>(
    files: Seq<ParsedFile>,
    ms: Seq<MemberView<'a>>,
    t: Tables,
    scopes: Seq<((usize, Seq<char>), usize)>,
    k: int,
)
    requires
        tables_ok(t, files.len(), ms.len()),
        scopes == t.scopes,
        0 <= k < scopes.flat_map(pairs_in(files, ms, t)).len(),
    ensures
        pair_ok(scopes.flat_map(pairs_in(files, ms, t))[k], files.len(), ms.len()),
{
    let f = pairs_in(files, ms, t);
    assert forall|i: int, j: int| 0 <= i < scopes.len() && 0 <= j < f(
        scopes[i],
    ).len() implies pair_ok(#[trigger] f(scopes[i])[j], files.len(), ms.len()) by {
        let scope = scopes[i];
        let g = pairs_of(files, ms, t, scope);
        assert(scope.0.0 < files.len());
        assert forall|a: int, b: int| 0 <= a < t.names.len() && 0 <= b < g(
            t.names[a],
        ).len() implies pair_ok(#[trigger] g(t.names[a])[b], files.len(), ms.len()) by {
            let row = t.names[a];
            let h = pair_with(t, scope, row);
            let all = twin_names(row.0.1);
            assert(row.1 < ms.len());
            assert forall|c: int, d: int| 0 <= c < all.len() && 0 <= d < h(
                all[c],
            ).len() implies pair_ok(#[trigger] h(all[c])[d], files.len(), ms.len()) by {
                let place = row_of(t.names, (scope.1, all[c]));
                lemma_row_of(t.names, (scope.1, all[c]));
                assert(t.names[place].1 < ms.len());
            }
            lemma_all_pairs(all, h, files.len(), ms.len(), b);
        }
        lemma_all_pairs(t.names, g, files.len(), ms.len(), j);
    }
    lemma_all_pairs(scopes, f, files.len(), ms.len(), k);
}

// ── Twins ───────────────────────────────────────────────────────────────────

/// The name of a class, as the reported pairs are told apart by: functions outside
/// classes count as those of a class without a name.
pub open spec fn class_of(key: Seq<char>) -> Seq<char> {
    if key.len() == 0 {
        key
    } else {
        key.skip(1)
    }
}

/// Whether two pairs are one pair of names in classes of one name.
pub open spec fn same_pair(a: PairView, b: PairView) -> bool {
    &&& class_of(a.class) == class_of(b.class)
    &&& (a.name == b.name && a.other == b.other) || (a.name == b.other && a.other == b.name)
}

/// Whether two functions are at least as similar as `min` says. Functions that cannot
/// be written as text are not compared.
#[verifier::opaque]
pub open spec fn alike(a: &Stmt, b: &Stmt, min: Ratio) -> bool {
    let first = stmt_text(a, seq![]);
    let second = stmt_text(b, seq![]);
    writable(a) && writable(b) && is_similar(
        common(first, second),
        (first.len() + second.len()) as int,
        min,
    )
}

/// Whether a pair was found before.
pub open spec fn is_found(found: Seq<PairView>, p: PairView) -> bool {
    exists|i: int| 0 <= i < found.len() && same_pair(#[trigger] found[i], p)
}

/// The pairs that are twins, without those found before.
pub open spec fn twins<'a>(ms: Seq<MemberView<'a>>, all: Seq<PairView>, min: Ratio) -> Seq<PairView>
    decreases all.len(),
{
    if all.len() == 0 {
        seq![]
    } else {
        let found = twins(ms, all.drop_last(), min);
        let p = all.last();
        if !is_found(found, p) && alike(ms[p.left as int].stmt, ms[p.right as int].stmt, min) {
            found.push(p)
        } else {
            found
        }
    }
}

/// The line of a function.
pub open spec fn def_line(site: SiteView, s: &Stmt) -> nat {
    line_in(site.starts, range_start(def_range(s)) as nat)
}

/// The similarity of two functions in whole percent.
pub open spec fn alike_percent(a: &Stmt, b: &Stmt) -> int {
    let first = stmt_text(a, seq![]);
    let second = stmt_text(b, seq![]);
    percent(common(first, second), (first.len() + second.len()) as int)
}

/// The finding on twins, at the upper of the two.
pub open spec fn twin_issue<'a>(
    pkg_name: Seq<char>,
    files: Seq<ParsedFile>,
    ms: Seq<MemberView<'a>>,
) -> spec_fn(PairView) -> IssueView {
    |p: PairView|
        {
            let site = lines_of_file(files, p.file as int);
            let left = ms[p.left as int].stmt;
            let right = ms[p.right as int].stmt;
            finding(
                site.file,
                if def_line(site, left) <= def_line(site, right) {
                    def_line(site, left)
                } else {
                    def_line(site, right)
                },
                Severity::Warning,
                "sync-async-duplication"@,
                pkg_name,
                p.name + "() and "@ + p.other + "() are "@ + dec(alike_percent(left, right) as nat)
                    + "% similar — likely copy-pasted sync/async twins; extract a shared helper for the non-blocking parts"@,
            )
        }
}

/// The twins of a package.
pub open spec fn sync_async_twins(
    pkg_name: Seq<char>,
    files: Seq<ParsedFile>,
    min_ratio: Ratio,
) -> Seq<IssueView> {
    let ms = all_members(files);
    twins(ms, pairs(files, ms), min_ratio).map_values(twin_issue(pkg_name, files, ms))
}

fn was_found(found: &Vec<&Pair>, p: &Pair) -> (r: bool)
    ensures
        r == is_found(found@.map_values(|q: &Pair| q@), p@),
{
    let ghost all = found@.map_values(|q: &Pair| q@);
    let mut i: usize = 0;
    while i < found.len()
        invariant
            i <= found@.len(),
            all == found@.map_values(|q: &Pair| q@),
            forall|k: int| 0 <= k < i ==> !same_pair(#[trigger] all[k], p@),
        decreases found@.len() - i,
    {
        let q = found[i];
        assert(all[i as int] == q@);
        if is_same_class(q.class.as_str(), p.class.as_str()) && ((same(
            q.name.as_str(),
            p.name.as_str(),
        ) && same(q.other.as_str(), p.other.as_str())) || (same(q.name.as_str(), p.other.as_str())
            && same(q.other.as_str(), p.name.as_str()))) {
            return true;
        }
        i += 1;
    }
    false
}

fn is_same_class(a: &str, b: &str) -> (r: bool)
    ensures
        r == (class_of(a@) == class_of(b@)),
{
    same(name_of_class(a).as_str(), name_of_class(b).as_str())
}

fn name_of_class(key: &str) -> (r: String)
    ensures
        r@ == class_of(key@),
{
    if key.unicode_len() == 0 {
        key.to_owned()
    } else {
        without_front(key, 1)
    }
}

fn index_files(files: &[ParsedFile]) -> (r: Vec<LineIndex>)
    ensures
        index_ok(r@, files@),
{
    let mut out: Vec<LineIndex> = Vec::new();
    let mut i: usize = 0;
    while i < files.len()
        invariant
            i <= files@.len(),
            out@.len() == i,
            forall|k: int|
                0 <= k < i ==> (#[trigger] out@[k])@ == site_of(
                    files@[k].source@,
                    seq![],
                    seq![],
                ).starts,
        decreases files@.len() - i,
    {
        out.push(LineIndex::new(files[i].source.as_str()));
        i += 1;
    }
    out
}

/// The functions of a package that are at least as similar as `min_ratio` says to one
/// whose name shows it to be their synchronous or asynchronous twin.
pub fn check_sync_async_twins_pkg(pkg_name: &str, files: &[ParsedFile], min_ratio: Ratio) -> (r:
    Vec<Issue>)
    ensures
        issue_views(r@) == sync_async_twins(pkg_name@, files@, min_ratio),
{
    let ms = collect_members(files);
    let indices = index_files(files);
    let all = collect_pairs(files, &indices, &ms);
    let ghost members_seen = member_views(ms@);
    let ghost every = pair_views(all@);
    let ghost f = twin_issue(pkg_name@, files@, members_seen);
    let ghost view = |q: &Pair| q@;
    let mut found: Vec<&Pair> = Vec::new();
    let mut issues = none();
    let mut i: usize = 0;
    assert(found@.map_values(view) =~= twins(members_seen, every.take(0), min_ratio));
    assert(issue_views(issues@) =~= found@.map_values(view).map_values(f));
    while i < all.len()
        invariant
            i <= all@.len(),
            members_seen == member_views(ms@),
            every == pair_views(all@),
            f == twin_issue(pkg_name@, files@, members_seen),
            view == (|q: &Pair| q@),
            forall|k: int| 0 <= k < ms@.len() ==> (#[trigger] ms@[k]).func.well_formed(),
            index_ok(indices@, files@),
            forall|k: int|
                0 <= k < all@.len() ==> (#[trigger] all@[k]).file < files@.len() && all@[k].left
                    < ms@.len() && all@[k].right < ms@.len(),
            found@.map_values(view) == twins(members_seen, every.take(i as int), min_ratio),
            issue_views(issues@) == found@.map_values(view).map_values(f),
        decreases all@.len() - i,
    {
        let p = &all[i];
        let ghost before = found@.map_values(view);
        let ghost findings = issue_views(issues@);
        proof {
            reveal(alike);
            assert(every.take(i + 1).drop_last() =~= every.take(i as int));
            assert(every.take(i + 1).last() == p@);
        }
        let left = &ms[p.left].func;
        let right = &ms[p.right].func;
        assert(members_seen[p.left as int].stmt == left.stmt);
        assert(members_seen[p.right as int].stmt == right.stmt);
        if !was_found(&found, p) && is_writable(left.stmt) && is_writable(right.stmt) {
            let likeness = sequence_matcher_ratio(
                unparse_function(left.stmt).as_str(),
                unparse_function(right.stmt).as_str(),
            );
            if likeness.at_least(min_ratio) {
                let index = &indices[find_reader(files, p.file)];
                let ghost site = lines_of_file(files@, p.file as int);
                assert(index@ == site.starts);
                let a: usize = index.line_number(left.start);
                let b: usize = index.line_number(right.start);
                let line: usize = if a <= b {
                    a
                } else {
                    b
                };
                let message = p.name.clone().concat("() and ").concat(p.other.as_str()).concat(
                    "() are ",
                ).concat(likeness.percent_text().as_str()).concat(
                    "% similar — likely copy-pasted sync/async twins; extract a shared helper for the non-blocking parts",
                );
                let one = issue(
                    files[p.file].path.as_str(),
                    line,
                    Severity::Warning,
                    "sync-async-duplication",
                    pkg_name,
                    message,
                );
                assert(one@ == f(p@));
                push_issue(&mut issues, one);
                found.push(p);
                proof {
                    assert(found@.map_values(view) =~= before.push(p@));
                    assert(before.push(p@).map_values(f) =~= before.map_values(f).push(one@));
                    assert(findings + seq![one@] =~= findings.push(one@));
                }
            }
        }
        i += 1;
    }
    assert(every.take(i as int) =~= every);
    issues
}

/// Whether no two pairs of a list have the same names in classes of one name.
pub open spec fn all_distinct(s: Seq<PairView>) -> bool {
    forall|i: int, j: int| 0 <= i < j < s.len() ==> !same_pair(#[trigger] s[i], #[trigger] s[j])
}

/// Whether the functions of a pair are alike.
pub open spec fn pair_alike<'a>(ms: Seq<MemberView<'a>>, p: PairView, min: Ratio) -> bool {
    alike(ms[p.left as int].stmt, ms[p.right as int].stmt, min)
}

/// No two reported pairs of twins have the same names in classes of one name.
pub proof fn law_twins_are_reported_once<'a>(
    ms: Seq<MemberView<'a>>,
    all: Seq<PairView>,
    min: Ratio,
)
    ensures
        all_distinct(twins(ms, all, min)),
    decreases all.len(),
{
    if all.len() > 0 {
        law_twins_are_reported_once(ms, all.drop_last(), min);
        let before = twins(ms, all.drop_last(), min);
        let now = twins(ms, all, min);
        assert forall|i: int, j: int| 0 <= i < j < now.len() implies !same_pair(
            #[trigger] now[i],
            #[trigger] now[j],
        ) by {
            assert(before[i] == now[i]);
            if j < before.len() {
                assert(before[j] == now[j]);
            }
        }
    }
}

/// A reported pair is one of the package's pairs, and its functions are alike.
pub proof fn law_reported_twins_are_alike<'a>(
    ms: Seq<MemberView<'a>>,
    all: Seq<PairView>,
    min: Ratio,
    i: int,
)
    requires
        0 <= i < twins(ms, all, min).len(),
    ensures
        all.contains(twins(ms, all, min)[i]),
        pair_alike(ms, twins(ms, all, min)[i], min),
    decreases all.len(),
{
    let rest = all.drop_last();
    let before = twins(ms, rest, min);
    if i < before.len() {
        law_reported_twins_are_alike(ms, rest, min, i);
        let k = rest.index_of(before[i]);
        assert(all[k] == before[i]);
    } else {
        assert(all[all.len() - 1] == all.last());
    }
}

proof fn lemma_found_stays<'a>(
    ms: Seq<MemberView<'a>>,
    all: Seq<PairView>,
    min: Ratio,
    p: PairView,
)
    requires
        all.len() > 0,
    ensures
        is_found(twins(ms, all.drop_last(), min), p) ==> is_found(twins(ms, all, min), p),
{
    let before = twins(ms, all.drop_last(), min);
    let now = twins(ms, all, min);
    if is_found(before, p) {
        let i = choose|i: int| 0 <= i < before.len() && same_pair(#[trigger] before[i], p);
        assert(now[i] == before[i]);
    }
}

/// Every pair whose functions are alike is reported, itself or under the same names.
pub proof fn law_twins_are_reported<'a>(
    ms: Seq<MemberView<'a>>,
    all: Seq<PairView>,
    min: Ratio,
    k: int,
)
    requires
        0 <= k < all.len(),
        pair_alike(ms, all[k], min),
    ensures
        is_found(twins(ms, all, min), all[k]),
    decreases all.len(),
{
    let rest = all.drop_last();
    let before = twins(ms, rest, min);
    if k < rest.len() {
        law_twins_are_reported(ms, rest, min, k);
    }
    lemma_found_stays(ms, all, min, all[k]);
    if k == rest.len() && !is_found(before, all[k]) {
        let now = twins(ms, all, min);
        assert(now == before.push(all[k]));
        assert(now[before.len() as int] == all[k]);
        assert(same_pair(all[k], all[k]));
    }
}

} // verus!
