//! Which functions of a package are compared as twins, and which pairs are reported.

use crate::ast_helpers::{def_name, members};
use crate::checks::common::{body_of, site_of};
use crate::checks::functions::function_lines;
use crate::checks::package_level::ParsedFile;
use crate::checks::twins::{
    alike, all_members, class_key, class_of, def_line, first_same, last_same,
    law_reported_twins_are_alike, law_twin_names_are_sorted_and_distinct, law_twins_are_reported,
    lines_of_file, made_up_names, owner, pair_alike, pair_with, pairs, pairs_in, pairs_of,
    same_pair, same_path, scope_key, sync_async_twins, tables, twin_issue, twin_names, twins,
    with_scope, MemberView, PairView,
};
use crate::models::{IssueView, Ratio, Severity};
use crate::order::lemma_flat_map_contains;
use crate::paths::components;
use crate::similarity::common;
use crate::table::{law_put_then_lookup, lemma_row_of, lookup, put, row_of};
use crate::unparse::{stmt_text, writable};
use rustpython_ast::Stmt;
use vstd::prelude::*;
use vstd::string::*;

verus! {

// ── Names ───────────────────────────────────────────────────────────────────

/// Whether one name is made from the other by an affix that tells synchronous and
/// asynchronous functions apart.
pub open spec fn are_twin_names(name: Seq<char>, other: Seq<char>) -> bool {
    ||| other == "a"@ + name
    ||| other == name + "_async"@
    ||| other == "async_"@ + name
    ||| other == "_async_"@ + name
    ||| other.len() > 0 && name == "a"@ + other
    ||| name == "_async_"@ + other
    ||| name == other + "_async"@
    ||| name == "async_"@ + other
    ||| name == other + "_sync"@
    ||| exists|base: Seq<char>| name == #[trigger] (base + "_sync"@) && other == base + "_async"@
}

proof fn lemma_taken_front(name: Seq<char>, affix: Seq<char>, other: Seq<char>)
    ensures
        affix.is_prefix_of(name) && name.skip(affix.len() as int) == other <==> name == affix
            + other,
{
    if name == affix + other {
        assert(name.take(affix.len() as int) =~= affix);
        assert(name.skip(affix.len() as int) =~= other);
    }
    if affix.is_prefix_of(name) && name.skip(affix.len() as int) == other {
        assert(name =~= affix + other);
    }
}

proof fn lemma_taken_back(name: Seq<char>, affix: Seq<char>, other: Seq<char>)
    ensures
        affix.is_suffix_of(name) && name.take(name.len() - affix.len()) == other <==> name == other
            + affix,
{
    if name == other + affix {
        assert(name.skip(other.len() as int) =~= affix);
        assert(name.take(name.len() - affix.len()) =~= other);
    }
    if affix.is_suffix_of(name) && name.take(name.len() - affix.len()) == other {
        assert(name =~= other + affix);
    }
}

/// A function's twin may have exactly the names that an affix makes from its own, or from
/// which an affix makes its own.
pub proof fn law_twins_are_named_by_affixes(name: Seq<char>, other: Seq<char>)
    ensures
        twin_names(name).contains(other) <==> are_twin_names(name, other),
{
    law_twin_names_are_sorted_and_distinct(name);
    lemma_affixes(name, other);
}

proof fn lemma_affixes(name: Seq<char>, other: Seq<char>)
    ensures
        made_up_names(name).contains(other) <==> are_twin_names(name, other),
{
    broadcast use vstd::seq_lib::lemma_seq_concat_contains_all_elements;

    reveal_strlit("a");
    reveal_strlit("_async_");
    reveal_strlit("_async");
    reveal_strlit("async_");
    reveal_strlit("_sync");
    lemma_taken_front(name, "a"@, other);
    lemma_taken_front(name, "_async_"@, other);
    lemma_taken_front(name, "async_"@, other);
    lemma_taken_back(name, "_async"@, other);
    lemma_taken_back(name, "_sync"@, other);
    let first = seq!["a"@ + name, name + "_async"@, "async_"@ + name, "_async_"@ + name];
    assert(first.contains(other) <==> other == "a"@ + name || other == name + "_async"@ || other
        == "async_"@ + name || other == "_async_"@ + name) by {
        if other == "a"@ + name {
            assert(first[0] == other);
        }
        if other == name + "_async"@ {
            assert(first[1] == other);
        }
        if other == "async_"@ + name {
            assert(first[2] == other);
        }
        if other == "_async_"@ + name {
            assert(first[3] == other);
        }
    }
    let second = if name.len() > 1 && name[0] == 'a' {
        seq![name.skip(1)]
    } else {
        seq![]
    };
    assert(second.contains(other) <==> other.len() > 0 && name == "a"@ + other) by {
        if name.len() > 0 && name[0] == 'a' {
            assert("a"@.is_prefix_of(name)) by {
                assert(name.take(1) =~= "a"@);
            }
        }
        if second.contains(other) {
            assert(other == name.skip(1));
        }
        if other.len() > 0 && name == "a"@ + other {
            assert(second[0] == other);
        }
    }
    let third = if "_async_"@.is_prefix_of(name) {
        seq![name.skip("_async_"@.len() as int)]
    } else {
        seq![]
    };
    assert(third.contains(other) <==> name == "_async_"@ + other) by {
        if name == "_async_"@ + other {
            assert(third[0] == other);
        }
    }
    let fourth = if "_async"@.is_suffix_of(name) {
        seq![name.take(name.len() - "_async"@.len())]
    } else {
        seq![]
    };
    assert(fourth.contains(other) <==> name == other + "_async"@) by {
        if name == other + "_async"@ {
            assert(fourth[0] == other);
        }
    }
    let fifth = if "async_"@.is_prefix_of(name) {
        seq![name.skip("async_"@.len() as int)]
    } else {
        seq![]
    };
    assert(fifth.contains(other) <==> name == "async_"@ + other) by {
        if name == "async_"@ + other {
            assert(fifth[0] == other);
        }
    }
    let base = name.take(name.len() - "_sync"@.len());
    let sixth = if "_sync"@.is_suffix_of(name) {
        seq![base, base + "_async"@]
    } else {
        seq![]
    };
    assert(sixth.contains(other) <==> name == other + "_sync"@ || exists|b: Seq<char>|
        name == #[trigger] (b + "_sync"@) && other == b + "_async"@) by {
        if name == other + "_sync"@ {
            assert(sixth[0] == other);
        }
        if exists|b: Seq<char>| name == #[trigger] (b + "_sync"@) && other == b + "_async"@ {
            let b = choose|b: Seq<char>| name == #[trigger] (b + "_sync"@) && other == b
                + "_async"@;
            lemma_taken_back(name, "_sync"@, b);
            assert(sixth[1] == other);
        }
        if sixth.contains(other) {
            lemma_taken_back(name, "_sync"@, base);
            assert(name == base + "_sync"@);
        }
    }
    assert(made_up_names(name) == first + second + third + fourth + fifth + sixth);
}

// ── Scopes ──────────────────────────────────────────────────────────────────

/// Whether two functions stand in one scope: in files of one path, in one class or in none.
pub open spec fn in_one_scope<'a>(
    files: Seq<ParsedFile>,
    a: MemberView<'a>,
    b: MemberView<'a>,
) -> bool {
    components(files[a.file as int].path@) == components(files[b.file as int].path@) && a.class
        == b.class
}

/// Whether a function is the last of its name in its scope.
pub open spec fn is_in_force<'a>(
    files: Seq<ParsedFile>,
    ms: Seq<MemberView<'a>>,
    i: int,
) -> bool {
    forall|k: int|
        i < k < ms.len() ==> !(in_one_scope(files, ms[i], #[trigger] ms[k]) && def_name(ms[k].stmt)
            == def_name(ms[i].stmt))
}

proof fn lemma_first_same(files: Seq<ParsedFile>, i: int, from: int)
    requires
        0 <= from <= i < files.len(),
    ensures
        from <= first_same(files, i, from) <= i,
        same_path(files[first_same(files, i, from)].path@, files[i].path@),
        forall|k: int|
            from <= k < first_same(files, i, from) ==> !same_path(
                (#[trigger] files[k]).path@,
                files[i].path@,
            ),
    decreases i - from,
{
    if from < i && !same_path(files[from].path@, files[i].path@) {
        lemma_first_same(files, i, from + 1);
    }
}

proof fn lemma_same_owner(files: Seq<ParsedFile>, i: int, j: int)
    requires
        0 <= i < files.len(),
        0 <= j < files.len(),
    ensures
        owner(files, i) == owner(files, j) <==> same_path(files[i].path@, files[j].path@),
        0 <= owner(files, i) < files.len(),
{
    lemma_first_same(files, i, 0);
    lemma_first_same(files, j, 0);
}

proof fn lemma_class_keys(a: Option<Seq<char>>, b: Option<Seq<char>>)
    ensures
        class_key(a) == class_key(b) <==> a == b,
        class_of(class_key(a)) == class_text(a),
{
    reveal_strlit(":");
    if let Some(x) = a {
        assert((":"@ + x).skip(1) =~= x);
        assert((":"@ + x).len() > 0);
    }
    if let Some(y) = b {
        assert((":"@ + y).skip(1) =~= y);
        assert((":"@ + y).len() > 0);
    }
}

/// The name of a class, or nothing.
pub open spec fn class_text(class: Option<Seq<char>>) -> Seq<char> {
    match class {
        Some(name) => name,
        None => seq![],
    }
}

spec fn fits<'a>(files: Seq<ParsedFile>, ms: Seq<MemberView<'a>>) -> bool {
    &&& files.len() <= usize::MAX
    &&& ms.len() <= usize::MAX
    &&& forall|i: int| 0 <= i < ms.len() ==> (#[trigger] ms[i]).file < files.len()
}

proof fn lemma_scope_keys<'a>(files: Seq<ParsedFile>, a: MemberView<'a>, b: MemberView<'a>)
    requires
        files.len() <= usize::MAX,
        a.file < files.len(),
        b.file < files.len(),
    ensures
        scope_key(files, a) == scope_key(files, b) <==> in_one_scope(files, a, b),
{
    lemma_same_owner(files, a.file as int, b.file as int);
    lemma_same_owner(files, b.file as int, a.file as int);
    lemma_class_keys(a.class, b.class);
}

spec fn scopes_ok<'a>(files: Seq<ParsedFile>, ms: Seq<MemberView<'a>>) -> bool {
    let scopes = tables(files, ms).scopes;
    &&& scopes.len() <= ms.len()
    &&& forall|a: int| 0 <= a < scopes.len() ==> (#[trigger] scopes[a]).1 == a
    &&& forall|i: int|
        0 <= i < ms.len() ==> lookup(scopes, scope_key(files, #[trigger] ms[i])) is Some
    &&& forall|a: int|
        0 <= a < scopes.len() ==> exists|i: int|
            0 <= i < ms.len() && (#[trigger] scopes[a]).0 == scope_key(files, #[trigger] ms[i])
}

proof fn lemma_scopes<'a>(files: Seq<ParsedFile>, ms: Seq<MemberView<'a>>)
    requires
        fits(files, ms),
    ensures
        scopes_ok(files, ms),
    decreases ms.len(),
{
    let scopes = tables(files, ms).scopes;
    if ms.len() > 0 {
        let rest = ms.drop_last();
        let m = ms.last();
        assert(fits(files, rest)) by {
            assert forall|i: int| 0 <= i < rest.len() implies (#[trigger] rest[i]).file
                < files.len() by {
                assert(rest[i] == ms[i]);
            }
        }
        lemma_scopes(files, rest);
        let before = tables(files, rest).scopes;
        let key = scope_key(files, m);
        let value = before.len() as usize;
        assert(scopes == with_scope(before, key));
        lemma_row_of(before, key);
        assert forall|i: int| 0 <= i < ms.len() implies lookup(
            scopes,
            scope_key(files, #[trigger] ms[i]),
        ) is Some by {
            let k = scope_key(files, ms[i]);
            law_put_then_lookup(before, key, k, value);
            if i < rest.len() {
                assert(rest[i] == ms[i]);
            }
        }
        assert forall|a: int| 0 <= a < scopes.len() implies exists|i: int|
            0 <= i < ms.len() && (#[trigger] scopes[a]).0 == scope_key(files, #[trigger] ms[i]) by {
            if a < before.len() {
                let i = choose|i: int|
                    0 <= i < rest.len() && before[a].0 == scope_key(files, #[trigger] rest[i]);
                assert(ms[i] == rest[i]);
                assert(scopes[a] == before[a]);
            } else {
                assert(scopes[a].0 == scope_key(files, ms[ms.len() - 1]));
            }
        }
    }
}

/// The number of the scope of a function.
spec fn number<'a>(files: Seq<ParsedFile>, ms: Seq<MemberView<'a>>, m: MemberView<'a>) -> usize {
    lookup(tables(files, ms).scopes, scope_key(files, m))->0
}

proof fn lemma_number<'a>(files: Seq<ParsedFile>, ms: Seq<MemberView<'a>>, i: int)
    requires
        scopes_ok(files, ms),
        0 <= i < ms.len(),
    ensures
        number(files, ms, ms[i]) < tables(files, ms).scopes.len(),
        tables(files, ms).scopes[number(files, ms, ms[i]) as int] == (
            scope_key(files, ms[i]),
            number(files, ms, ms[i]),
        ),
{
    let scopes = tables(files, ms).scopes;
    let key = scope_key(files, ms[i]);
    lemma_row_of(scopes, key);
    assert(lookup(scopes, scope_key(files, ms[i])) is Some);
    let p = row_of(scopes, key);
    assert(scopes[p].1 == p);
}

spec fn names_ok<'a>(files: Seq<ParsedFile>, ms: Seq<MemberView<'a>>) -> bool {
    let names = tables(files, ms).names;
    &&& forall|i: int|
        0 <= i < ms.len() && is_in_force(files, ms, i) ==> lookup(
            names,
            (number(files, ms, ms[i]), def_name((#[trigger] ms[i]).stmt)),
        ) == Some(i as usize)
    &&& forall|r: int|
        0 <= r < names.len() ==> (#[trigger] names[r]).1 < ms.len() && names[r].0 == (
            number(files, ms, ms[names[r].1 as int]),
            def_name(ms[names[r].1 as int].stmt),
        )
}

proof fn lemma_names<'a>(files: Seq<ParsedFile>, ms: Seq<MemberView<'a>>)
    requires
        fits(files, ms),
    ensures
        names_ok(files, ms),
    decreases ms.len(),
{
    lemma_scopes(files, ms);
    if ms.len() > 0 {
        let rest = ms.drop_last();
        let m = ms.last();
        let n = ms.len() - 1;
        assert(ms[n] == m);
        assert(fits(files, rest)) by {
            assert forall|i: int| 0 <= i < rest.len() implies (#[trigger] rest[i]).file
                < files.len() by {
                assert(rest[i] == ms[i]);
            }
        }
        lemma_names(files, rest);
        lemma_scopes(files, rest);
        let before = tables(files, rest);
        let after = tables(files, ms);
        let key = scope_key(files, m);
        let value = before.scopes.len() as usize;
        assert forall|i: int| 0 <= i < rest.len() implies #[trigger] number(files, ms, ms[i])
            == number(files, rest, rest[i]) by {
            assert(rest[i] == ms[i]);
            law_put_then_lookup(before.scopes, key, scope_key(files, ms[i]), value);
            assert(lookup(before.scopes, scope_key(files, rest[i])) is Some);
        }
        let row = (number(files, ms, m), def_name(m.stmt));
        assert(after.names == put(before.names, row, n as usize));
        lemma_row_of(before.names, row);
        assert forall|r: int| 0 <= r < after.names.len() implies (#[trigger] after.names[r]).1
            < ms.len() && after.names[r].0 == (
            number(files, ms, ms[after.names[r].1 as int]),
            def_name(ms[after.names[r].1 as int].stmt),
        ) by {
            if after.names[r].1 != n {
                assert(after.names[r] == before.names[r]);
                let v = before.names[r].1 as int;
                assert(rest[v] == ms[v]);
                assert(number(files, ms, ms[v]) == number(files, rest, rest[v]));
            } else if r < before.names.len() && after.names[r] == before.names[r] {
                assert(before.names[r].1 < rest.len());
            } else {
                assert(after.names[r] == (row, n as usize));
            }
        }
        assert forall|i: int| 0 <= i < ms.len() && is_in_force(files, ms, i) implies lookup(
            after.names,
            (number(files, ms, ms[i]), def_name((#[trigger] ms[i]).stmt)),
        ) == Some(i as usize) by {
            let own = (number(files, ms, ms[i]), def_name(ms[i].stmt));
            law_put_then_lookup(before.names, row, own, n as usize);
            if i < n {
                assert(rest[i] == ms[i]);
                assert(number(files, ms, ms[i]) == number(files, rest, rest[i]));
                assert(is_in_force(files, rest, i)) by {
                    assert forall|k: int| i < k < rest.len() implies !(in_one_scope(
                        files,
                        rest[i],
                        #[trigger] rest[k],
                    ) && def_name(rest[k].stmt) == def_name(rest[i].stmt)) by {
                        assert(rest[k] == ms[k]);
                    }
                }
                if own == row {
                    lemma_number(files, ms, i);
                    lemma_number(files, ms, n);
                    lemma_scope_keys(files, ms[i], ms[n]);
                    assert(in_one_scope(files, ms[i], ms[n]));
                }
            }
        }
    }
}

// ── Pairs ───────────────────────────────────────────────────────────────────

/// The pair of two functions.
pub open spec fn pair_of<'a>(
    files: Seq<ParsedFile>,
    ms: Seq<MemberView<'a>>,
    i: int,
    j: int,
) -> PairView {
    PairView {
        file: owner(files, ms[i].file as int) as nat,
        class: class_key(ms[i].class),
        name: def_name(ms[i].stmt),
        other: def_name(ms[j].stmt),
        left: i as nat,
        right: j as nat,
    }
}

/// Two functions of one scope are compared where their names make them twins and the first
/// has at least four lines.
pub proof fn law_twins_are_paired<'a>(
    files: Seq<ParsedFile>,
    ms: Seq<MemberView<'a>>,
    i: int,
    j: int,
)
    requires
        files.len() <= usize::MAX,
        ms.len() <= usize::MAX,
        forall|k: int| 0 <= k < ms.len() ==> (#[trigger] ms[k]).file < files.len(),
        0 <= i < ms.len(),
        0 <= j < ms.len(),
        in_one_scope(files, ms[i], ms[j]),
        is_in_force(files, ms, i),
        is_in_force(files, ms, j),
        are_twin_names(def_name(ms[i].stmt), def_name(ms[j].stmt)),
        def_name(ms[i].stmt) != def_name(ms[j].stmt),
        function_lines(lines_of_file(files, owner(files, ms[i].file as int)), ms[i].stmt) >= 4,
    ensures
        pairs(files, ms).contains(pair_of(files, ms, i, j)),
{
    let t = tables(files, ms);
    let p = pair_of(files, ms, i, j);
    let name = p.name;
    let other = p.other;
    lemma_scopes(files, ms);
    lemma_names(files, ms);
    lemma_number(files, ms, i);
    lemma_number(files, ms, j);
    lemma_scope_keys(files, ms[i], ms[j]);
    lemma_same_owner(files, ms[i].file as int, ms[i].file as int);
    let a = number(files, ms, ms[i]);
    let scope = t.scopes[a as int];
    law_twins_are_named_by_affixes(name, other);
    let r = row_of(t.names, (a, name));
    lemma_row_of(t.names, (a, name));
    let row = t.names[r];
    assert(lookup(t.names, (a, name)) == Some(i as usize));
    assert(lookup(t.names, (a, other)) == Some(j as usize));
    let h = pair_with(t, scope, row);
    assert(h(other)[0] == p);
    assert(h(other).contains(p));
    let k = twin_names(name).index_of(other);
    assert(h(twin_names(name)[k]).contains(p));
    lemma_flat_map_contains(twin_names(name), h, p);
    let g = pairs_of(files, ms, t, scope);
    assert(g(row).contains(p));
    assert(g(t.names[r]).contains(p));
    lemma_flat_map_contains(t.names, g, p);
    let f = pairs_in(files, ms, t);
    assert(f(t.scopes[a as int]).contains(p));
    lemma_flat_map_contains(t.scopes, f, p);
}

/// What is compared are two functions of one scope whose names make them twins, the first of
/// which has at least four lines.
pub proof fn law_pairs_are_twins_by_name<'a>(
    files: Seq<ParsedFile>,
    ms: Seq<MemberView<'a>>,
    p: PairView,
)
    requires
        files.len() <= usize::MAX,
        ms.len() <= usize::MAX,
        forall|k: int| 0 <= k < ms.len() ==> (#[trigger] ms[k]).file < files.len(),
        pairs(files, ms).contains(p),
    ensures
        p.left < ms.len(),
        p.right < ms.len(),
        p == pair_of(files, ms, p.left as int, p.right as int),
        in_one_scope(files, ms[p.left as int], ms[p.right as int]),
        are_twin_names(p.name, p.other),
        p.name != p.other,
        function_lines(
            lines_of_file(files, owner(files, ms[p.left as int].file as int)),
            ms[p.left as int].stmt,
        ) >= 4,
{
    let t = tables(files, ms);
    lemma_scopes(files, ms);
    lemma_names(files, ms);
    let f = pairs_in(files, ms, t);
    lemma_flat_map_contains(t.scopes, f, p);
    let a = choose|a: int| 0 <= a < t.scopes.len() && f(#[trigger] t.scopes[a]).contains(p);
    let scope = t.scopes[a];
    let g = pairs_of(files, ms, t, scope);
    lemma_flat_map_contains(t.names, g, p);
    let r = choose|r: int| 0 <= r < t.names.len() && g(#[trigger] t.names[r]).contains(p);
    let row = t.names[r];
    let h = pair_with(t, scope, row);
    let all = twin_names(row.0.1);
    lemma_flat_map_contains(all, h, p);
    let k = choose|k: int| 0 <= k < all.len() && h(#[trigger] all[k]).contains(p);
    assert(h(all[k])[0] == p);
    let left = row.1 as int;
    lemma_row_of(t.names, (scope.1, all[k]));
    let q = row_of(t.names, (scope.1, all[k]));
    let right = t.names[q].1 as int;
    lemma_number(files, ms, left);
    lemma_number(files, ms, right);
    lemma_scope_keys(files, ms[left], ms[right]);
    lemma_same_owner(files, ms[left].file as int, ms[left].file as int);
    assert(all.contains(all[k]));
    law_twins_are_named_by_affixes(row.0.1, all[k]);
    assert(scope.1 == a);
    assert(t.scopes[a].0 == scope_key(files, ms[left]));
}

// ── Reports ─────────────────────────────────────────────────────────────────

/// Two functions are alike where both can be written out and the characters that their texts
/// have in common, counted in both, are at least so large a part of all of them.
pub proof fn law_likeness_is_a_share(a: &Stmt, b: &Stmt, min: Ratio)
    ensures
        ({
            let first = stmt_text(a, seq![]);
            let second = stmt_text(b, seq![]);
            first.len() + second.len() > 0 ==> alike(a, b, min) == (writable(a) && writable(b) && 2
                * common(first, second) * min.denominator >= min.numerator * (first.len()
                + second.len()))
        }),
{
    reveal(alike);
}

proof fn lemma_members_fit(files: Seq<ParsedFile>, i: int)
    requires
        0 <= i < all_members(files).len(),
    ensures
        all_members(files)[i].file < files.len(),
    decreases files.len(),
{
    let rest = all_members(files.drop_last());
    if i < rest.len() {
        lemma_members_fit(files.drop_last(), i);
    }
}

/// Whether a finding is on the twins `name` and `other`, named in one order or the other.
pub open spec fn is_on_twins(x: IssueView, name: Seq<char>, other: Seq<char>) -> bool {
    x.rule == "sync-async-duplication"@ && x.severity == Severity::Warning && ((name + "() and "@
        + other + "() are "@).is_prefix_of(x.message) || (other + "() and "@ + name
        + "() are "@).is_prefix_of(x.message))
}

/// Whether two functions of a package are to be reported as twins: they stand in one scope,
/// each is the last of its name there, one name is made from the other, the first is not
/// too short, and they are alike.
pub open spec fn are_copied_twins(
    files: Seq<ParsedFile>,
    min: Ratio,
    i: int,
    j: int,
) -> bool {
    let ms = all_members(files);
    &&& 0 <= i < ms.len()
    &&& 0 <= j < ms.len()
    &&& in_one_scope(files, ms[i], ms[j])
    &&& is_in_force(files, ms, i)
    &&& is_in_force(files, ms, j)
    &&& are_twin_names(def_name(ms[i].stmt), def_name(ms[j].stmt))
    &&& def_name(ms[i].stmt) != def_name(ms[j].stmt)
    &&& function_lines(lines_of_file(files, owner(files, ms[i].file as int)), ms[i].stmt) >= 4
    &&& alike(ms[i].stmt, ms[j].stmt, min)
}

/// Copied twins are reported: a reported pair has the same two names and is of a class of the
/// same name.
pub proof fn law_copied_twins_are_reported(
    files: Seq<ParsedFile>,
    min: Ratio,
    i: int,
    j: int,
) -> (k: int)
    requires
        files.len() <= usize::MAX,
        all_members(files).len() <= usize::MAX,
        are_copied_twins(files, min, i, j),
    ensures
        ({
            let ms = all_members(files);
            let found = twins(ms, pairs(files, ms), min);
            let name = def_name(ms[i].stmt);
            let other = def_name(ms[j].stmt);
            &&& 0 <= k < found.len()
            &&& (found[k].name == name && found[k].other == other) || (found[k].name == other
                && found[k].other == name)
            &&& found[k].left < ms.len()
            &&& class_text(ms[found[k].left as int].class) == class_text(ms[i].class)
        }),
{
    let ms = all_members(files);
    assert forall|n: int| 0 <= n < ms.len() implies (#[trigger] ms[n]).file < files.len() by {
        lemma_members_fit(files, n);
    }
    let all = pairs(files, ms);
    let p = pair_of(files, ms, i, j);
    law_twins_are_paired(files, ms, i, j);
    let at = all.index_of(p);
    assert(pair_alike(ms, all[at], min));
    law_twins_are_reported(ms, all, min, at);
    let found = twins(ms, all, min);
    let k = choose|k: int| 0 <= k < found.len() && same_pair(#[trigger] found[k], p);
    law_reported_twins_are_alike(ms, all, min, k);
    law_pairs_are_twins_by_name(files, ms, found[k]);
    lemma_class_keys(ms[found[k].left as int].class, ms[i].class);
    lemma_class_keys(ms[i].class, ms[i].class);
    k
}

proof fn lemma_finding_of(pkg_name: Seq<char>, files: Seq<ParsedFile>, min: Ratio, k: int)
    requires
        0 <= k < sync_async_twins(pkg_name, files, min).len(),
    ensures
        ({
            let ms = all_members(files);
            let q = twins(ms, pairs(files, ms), min)[k];
            is_on_twins(sync_async_twins(pkg_name, files, min)[k], q.name, q.other)
        }),
{
    let ms = all_members(files);
    let q = twins(ms, pairs(files, ms), min)[k];
    let x = sync_async_twins(pkg_name, files, min)[k];
    let head = q.name + "() and "@ + q.other + "() are "@;
    assert(x == twin_issue(pkg_name, files, ms)(q));
    assert(x.message.take(head.len() as int) =~= head);
}

/// Where each of two classes of different names, or a class and the functions outside
/// classes, hold copied twins, there is a finding for the one pair and another for the other.
pub proof fn law_each_class_has_its_twins_reported(
    pkg_name: Seq<char>,
    files: Seq<ParsedFile>,
    min: Ratio,
    i: int,
    j: int,
    m: int,
    n: int,
)
    requires
        files.len() <= usize::MAX,
        all_members(files).len() <= usize::MAX,
        are_copied_twins(files, min, i, j),
        are_copied_twins(files, min, m, n),
        class_text(all_members(files)[i].class) != class_text(all_members(files)[m].class),
    ensures
        ({
            let ms = all_members(files);
            let r = sync_async_twins(pkg_name, files, min);
            exists|a: int, b: int|
                0 <= a < r.len() && 0 <= b < r.len() && a != b && is_on_twins(
                    #[trigger] r[a],
                    def_name(ms[i].stmt),
                    def_name(ms[j].stmt),
                ) && is_on_twins(#[trigger] r[b], def_name(ms[m].stmt), def_name(ms[n].stmt))
        }),
{
    let ms = all_members(files);
    let r = sync_async_twins(pkg_name, files, min);
    let a = law_copied_twins_are_reported(files, min, i, j);
    let b = law_copied_twins_are_reported(files, min, m, n);
    lemma_finding_of(pkg_name, files, min, a);
    lemma_finding_of(pkg_name, files, min, b);
    assert(is_on_twins(r[a], def_name(ms[i].stmt), def_name(ms[j].stmt)));
    assert(is_on_twins(r[b], def_name(ms[m].stmt), def_name(ms[n].stmt)));
}

/// What is reported are two functions of one scope whose names make them twins, the first of
/// which has at least four lines, and which are alike. The finding stands in the first file
/// of their path, on the line of the upper of the two.
pub proof fn law_reported_twins_are_copies(
    pkg_name: Seq<char>,
    files: Seq<ParsedFile>,
    min: Ratio,
    k: int,
) -> (r: (int, int))
    requires
        files.len() <= usize::MAX,
        all_members(files).len() <= usize::MAX,
        0 <= k < sync_async_twins(pkg_name, files, min).len(),
    ensures
        ({
            let ms = all_members(files);
            let x = sync_async_twins(pkg_name, files, min)[k];
            let (i, j) = r;
            let site = lines_of_file(files, owner(files, ms[i].file as int));
            let upper = def_line(site, ms[i].stmt);
            let lower = def_line(site, ms[j].stmt);
            &&& 0 <= i < ms.len()
            &&& 0 <= j < ms.len()
            &&& in_one_scope(files, ms[i], ms[j])
            &&& are_twin_names(def_name(ms[i].stmt), def_name(ms[j].stmt))
            &&& def_name(ms[i].stmt) != def_name(ms[j].stmt)
            &&& function_lines(site, ms[i].stmt) >= 4
            &&& alike(ms[i].stmt, ms[j].stmt, min)
            &&& is_on_twins(x, def_name(ms[i].stmt), def_name(ms[j].stmt))
            &&& x.line <= upper && x.line <= lower && (x.line == upper || x.line == lower)
            &&& components(x.file) == components(files[ms[i].file as int].path@)
            &&& x.package == pkg_name
        }),
{
    let ms = all_members(files);
    assert forall|n: int| 0 <= n < ms.len() implies (#[trigger] ms[n]).file < files.len() by {
        lemma_members_fit(files, n);
    }
    let all = pairs(files, ms);
    let q = twins(ms, all, min)[k];
    law_reported_twins_are_alike(ms, all, min, k);
    law_pairs_are_twins_by_name(files, ms, q);
    lemma_finding_of(pkg_name, files, min, k);
    lemma_first_same(files, ms[q.left as int].file as int, 0);
    assert(sync_async_twins(pkg_name, files, min)[k] == twin_issue(pkg_name, files, ms)(q));
    (q.left as int, q.right as int)
}

/// The functions of a package are those of its files, one file behind the other, each with
/// the number of its file and the class that it stands in.
pub proof fn law_members_come_file_by_file<'a>(
    files: Seq<ParsedFile>,
    k: int,
    m: (Option<Seq<char>>, &'a Stmt),
)
    requires
        0 <= k < files.len(),
        members(body_of(files[k].module)).contains(m),
    ensures
        all_members(files).contains((MemberView { file: k as nat, class: m.0, stmt: m.1 })),
    decreases files.len(),
{
    let view = MemberView { file: k as nat, class: m.0, stmt: m.1 };
    let rest = files.drop_last();
    if k < rest.len() {
        law_members_come_file_by_file(rest, k, m);
        let i = all_members(rest).index_of(view);
        assert(all_members(files)[i] == view);
    } else {
        let own: Seq<(Option<Seq<char>>, &'a Stmt)> = members(body_of(files[k].module));
        let i = own.index_of(m);
        assert(all_members(files)[all_members(rest).len() + i] == view);
    }
}

/// The lines of a file are counted in the last of the files that have its path.
pub proof fn law_last_file_of_a_path_is_read(files: Seq<ParsedFile>, i: int, k: int)
    requires
        0 <= i <= k < files.len(),
        same_path(files[k].path@, files[i].path@),
        forall|j: int|
            k < j < files.len() ==> !same_path((#[trigger] files[j]).path@, files[i].path@),
    ensures
        lines_of_file(files, i) == site_of(files[k].source@, files[i].path@, seq![]),
{
    lemma_last_same(files, i, k, files.len() as int);
}

proof fn lemma_last_same(files: Seq<ParsedFile>, i: int, k: int, to: int)
    requires
        0 <= i <= k < to <= files.len(),
        same_path(files[k].path@, files[i].path@),
        forall|j: int| k < j < to ==> !same_path((#[trigger] files[j]).path@, files[i].path@),
    ensures
        last_same(files, i, to) == k,
    decreases to - k,
{
    if k < to - 1 {
        assert(!same_path(files[to - 1].path@, files[i].path@));
        lemma_last_same(files, i, k, to - 1);
    }
}

} // verus!
