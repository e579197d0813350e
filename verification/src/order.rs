//! Stable sorting: each element goes behind every earlier one that it does not
//! come before.

use crate::text::{lemma_text_le_total, lemma_text_le_transitive, text_at_most, text_le, texts};
use vstd::prelude::*;

verus! {

/// `s` with `x` put behind the last element that may stand before it.
pub open spec fn insert_by<A>(s: Seq<A>, x: A, le: spec_fn(A, A) -> bool) -> Seq<A>
    decreases s.len(),
{
    if s.len() == 0 || le(s.last(), x) {
        s.push(x)
    } else {
        insert_by(s.drop_last(), x, le).push(s.last())
    }
}

/// The elements of `s` in the order `le`; those that `le` holds to be equal keep
/// their order.
pub open spec fn sorted<A>(s: Seq<A>, le: spec_fn(A, A) -> bool) -> Seq<A>
    decreases s.len(),
{
    if s.len() == 0 {
        s
    } else {
        insert_by(sorted(s.drop_last(), le), s.last(), le)
    }
}

/// Whether each element may stand before each later one.
pub open spec fn ordered<A>(s: Seq<A>, le: spec_fn(A, A) -> bool) -> bool {
    forall|i: int, j: int| 0 <= i < j < s.len() ==> le(#[trigger] s[i], #[trigger] s[j])
}

/// Any two elements are ordered one way or the other, and the order carries
/// over a third.
pub open spec fn total_preorder<A>(le: spec_fn(A, A) -> bool) -> bool {
    &&& forall|a: A, b: A| #[trigger] le(a, b) || le(b, a)
    &&& forall|a: A, b: A, c: A| #[trigger] le(a, b) && #[trigger] le(b, c) ==> le(a, c)
}

spec fn all_before<A>(s: Seq<A>, b: A, le: spec_fn(A, A) -> bool) -> bool {
    forall|i: int| 0 <= i < s.len() ==> le(#[trigger] s[i], b)
}

/// Where an insertion by `le` puts its element.
pub proof fn lemma_insert_by<A>(s: Seq<A>, x: A, le: spec_fn(A, A) -> bool, pos: int)
    requires
        0 <= pos <= s.len(),
        pos == 0 || le(s[pos - 1], x),
        forall|k: int| pos <= k < s.len() ==> !le(#[trigger] s[k], x),
    ensures
        insert_by(s, x, le) == s.insert(pos, x),
    decreases s.len(),
{
    if pos == s.len() {
        assert(s.insert(pos, x) =~= s.push(x));
    } else {
        lemma_insert_by(s.drop_last(), x, le, pos);
        assert(s.drop_last().insert(pos, x).push(s.last()) =~= s.insert(pos, x));
    }
}

proof fn lemma_insert_by_multiset<A>(s: Seq<A>, x: A, le: spec_fn(A, A) -> bool)
    ensures
        insert_by(s, x, le).to_multiset() == s.to_multiset().insert(x),
        insert_by(s, x, le).len() == s.len() + 1,
    decreases s.len(),
{
    broadcast use vstd::seq_lib::to_multiset_build;

    if !(s.len() == 0 || le(s.last(), x)) {
        lemma_insert_by_multiset(s.drop_last(), x, le);
        assert(s =~= s.drop_last().push(s.last()));
        assert(s.to_multiset() == s.drop_last().to_multiset().insert(s.last()));
        assert(insert_by(s, x, le).to_multiset() =~= s.to_multiset().insert(x));
    }
}

proof fn lemma_insert_by_ordered<A>(s: Seq<A>, x: A, le: spec_fn(A, A) -> bool)
    requires
        total_preorder(le),
        ordered(s, le),
    ensures
        ordered(insert_by(s, x, le), le),
        forall|b: A|
            le(x, b) && all_before(s, b, le) ==> #[trigger] all_before(insert_by(s, x, le), b, le),
        insert_by(s, x, le).len() == s.len() + 1,
    decreases s.len(),
{
    if s.len() == 0 || le(s.last(), x) {
        let r = s.push(x);
        assert forall|i: int, j: int| 0 <= i < j < r.len() implies le(
            #[trigger] r[i],
            #[trigger] r[j],
        ) by {
            if j == s.len() && i < s.len() - 1 {
                assert(le(s[i], s[s.len() - 1]));
            }
        }
    } else {
        let rest = s.drop_last();
        let last = s.last();
        assert(ordered(rest, le)) by {
            assert forall|i: int, j: int| 0 <= i < j < rest.len() implies le(
                #[trigger] rest[i],
                #[trigger] rest[j],
            ) by {
                assert(le(s[i], s[j]));
            }
        }
        lemma_insert_by_ordered(rest, x, le);
        let inner = insert_by(rest, x, le);
        assert(le(x, last));
        assert forall|i: int| 0 <= i < rest.len() implies le(#[trigger] rest[i], last) by {
            assert(le(s[i], s[s.len() - 1]));
        }
        assert(all_before(rest, last, le));
        assert(all_before(inner, last, le));
        let r = inner.push(last);
        assert forall|i: int, j: int| 0 <= i < j < r.len() implies le(
            #[trigger] r[i],
            #[trigger] r[j],
        ) by {
            if j < inner.len() {
                assert(le(inner[i], inner[j]));
            } else {
                assert(le(inner[i], last));
            }
        }
        assert forall|b: A| le(x, b) && all_before(s, b, le) implies #[trigger] all_before(
            r,
            b,
            le,
        ) by {
            assert forall|i: int| 0 <= i < rest.len() implies le(#[trigger] rest[i], b) by {
                assert(le(s[i], b));
            }
            assert(all_before(rest, b, le));
            assert(all_before(inner, b, le));
            assert(le(s[s.len() - 1], b));
            assert forall|i: int| 0 <= i < r.len() implies le(#[trigger] r[i], b) by {
                if i < inner.len() {
                    assert(le(inner[i], b));
                }
            }
        }
    }
}

/// Sorting loses nothing, adds nothing and leaves the elements in order.
pub proof fn lemma_sorted<A>(s: Seq<A>, le: spec_fn(A, A) -> bool)
    requires
        total_preorder(le),
    ensures
        ordered(sorted(s, le), le),
        sorted(s, le).to_multiset() == s.to_multiset(),
        sorted(s, le).len() == s.len(),
    decreases s.len(),
{
    broadcast use vstd::seq_lib::to_multiset_build;

    if s.len() > 0 {
        lemma_sorted(s.drop_last(), le);
        lemma_insert_by_ordered(sorted(s.drop_last(), le), s.last(), le);
        lemma_insert_by_multiset(sorted(s.drop_last(), le), s.last(), le);
        assert(s =~= s.drop_last().push(s.last()));
    }
}

/// `v` in the order that `le` decides. `view` is what an element stands for and `rel`
/// the order of what the elements stand for.
pub(crate) fn sort_by<T, A, F: Fn(&T, &T) -> bool>(
    v: Vec<T>,
    le: F,
    Ghost(view): Ghost<spec_fn(T) -> A>,
    Ghost(rel): Ghost<spec_fn(A, A) -> bool>,
) -> (r: Vec<T>)
    requires
        forall|a: &T, b: &T| #[trigger] call_requires(le, (a, b)),
        forall|a: &T, b: &T, x: bool| #[trigger]
            call_ensures(le, (a, b), x) ==> x == rel(view(*a), view(*b)),
    ensures
        r@.map_values(view) == sorted(v@.map_values(view), rel),
{
    let ghost all = v@.map_values(view);
    let ghost whole = v@;
    let ghost mut n: int = 0;
    let mut rest = v;
    let mut out: Vec<T> = Vec::new();
    assert(out@.map_values(view) =~= sorted(all.take(0), rel));
    assert(whole.skip(0) =~= whole);
    while rest.len() > 0
        invariant
            forall|a: &T, b: &T| #[trigger] call_requires(le, (a, b)),
            forall|a: &T, b: &T, x: bool| #[trigger]
                call_ensures(le, (a, b), x) ==> x == rel(view(*a), view(*b)),
            all == whole.map_values(view),
            0 <= n <= whole.len(),
            rest@ == whole.skip(n),
            out@.map_values(view) == sorted(all.take(n), rel),
        decreases rest@.len(),
    {
        let ghost before = out@.map_values(view);
        let x = rest.remove(0);
        proof {
            assert(x == whole[n]);
            assert(rest@ =~= whole.skip(n + 1));
            assert(all.take(n + 1).drop_last() =~= all.take(n));
            assert(all.take(n + 1).last() == view(x));
            n = n + 1;
        }
        let mut pos: usize = out.len();
        while pos > 0 && !le(&out[pos - 1], &x)
            invariant
                forall|a: &T, b: &T| #[trigger] call_requires(le, (a, b)),
                forall|a: &T, b: &T, y: bool| #[trigger]
                    call_ensures(le, (a, b), y) ==> y == rel(view(*a), view(*b)),
                before == out@.map_values(view),
                pos <= out@.len(),
                forall|k: int| pos <= k < before.len() ==> !rel(#[trigger] before[k], view(x)),
            decreases pos,
        {
            assert(before[pos - 1] == view(out@[pos - 1]));
            pos -= 1;
        }
        proof {
            if pos > 0 {
                assert(before[pos - 1] == view(out@[pos - 1]));
            }
            lemma_insert_by(before, view(x), rel, pos as int);
        }
        out.insert(pos, x);
        assert(out@.map_values(view) =~= before.insert(pos as int, view(x)));
    }
    assert(all.take(n) =~= all);
    out
}

// ── Texts ───────────────────────────────────────────────────────────────────

/// The order of texts, as a relation.
pub open spec fn by_text() -> spec_fn(Seq<char>, Seq<char>) -> bool {
    |a: Seq<char>, b: Seq<char>| text_le(a, b)
}

/// The texts of `s` in lexicographic order.
pub open spec fn sorted_texts(s: Seq<Seq<char>>) -> Seq<Seq<char>> {
    sorted(s, by_text())
}

/// Sorting texts leaves the same texts in lexicographic order.
pub proof fn lemma_sorted_texts(s: Seq<Seq<char>>)
    ensures
        forall|i: int, j: int|
            0 <= i < j < sorted_texts(s).len() ==> text_le(
                #[trigger] sorted_texts(s)[i],
                #[trigger] sorted_texts(s)[j],
            ),
        sorted_texts(s).to_multiset() == s.to_multiset(),
        sorted_texts(s).len() == s.len(),
        forall|x: Seq<char>| sorted_texts(s).contains(x) <==> s.contains(x),
{
    let le = by_text();
    assert(total_preorder(le)) by {
        assert forall|a: Seq<char>, b: Seq<char>| #[trigger] le(a, b) || le(b, a) by {
            lemma_text_le_total(a, b);
        }
        assert forall|a: Seq<char>, b: Seq<char>, c: Seq<char>| #[trigger]
            le(a, b) && #[trigger] le(b, c) implies le(a, c) by {
            lemma_text_le_transitive(a, b, c);
        }
    }
    lemma_sorted(s, le);
    let t = sorted_texts(s);
    assert forall|i: int, j: int| 0 <= i < j < t.len() implies text_le(
        #[trigger] t[i],
        #[trigger] t[j],
    ) by {
        assert(le(t[i], t[j]));
    }
    broadcast use vstd::seq_lib::to_multiset_contains;
    assert forall|x: Seq<char>| t.contains(x) <==> s.contains(x) by {
        assert(t.contains(x) <==> t.to_multiset().count(x) > 0);
        assert(s.contains(x) <==> s.to_multiset().count(x) > 0);
    }
}

/// The strings of `v` in lexicographic order.
pub fn sort_texts(v: &Vec<String>) -> (r: Vec<String>)
    ensures
        texts(r@) == sorted_texts(texts(v@)),
        r@.len() == v@.len(),
{
    let ghost le = by_text();
    let ghost all = texts(v@);
    let mut out: Vec<String> = Vec::new();
    let mut i: usize = 0;
    assert(texts(out@) =~= sorted(all.take(0), le));
    while i < v.len()
        invariant
            i <= v@.len(),
            out@.len() == i,
            all == texts(v@),
            le == by_text(),
            texts(out@) == sorted(all.take(i as int), le),
        decreases v@.len() - i,
    {
        let ghost before = texts(out@);
        let ghost x = v@[i as int]@;
        let mut pos: usize = out.len();
        while pos > 0 && !text_at_most(out[pos - 1].as_str(), v[i].as_str())
            invariant
                i < v@.len(),
                x == v@[i as int]@,
                before == texts(out@),
                le == by_text(),
                pos <= out@.len(),
                forall|k: int| pos <= k < before.len() ==> !le(#[trigger] before[k], x),
            decreases pos,
        {
            assert(before[pos - 1] == out@[pos - 1]@);
            pos -= 1;
        }
        proof {
            if pos > 0 {
                assert(before[pos - 1] == out@[pos - 1]@);
            }
            lemma_insert_by(before, x, le, pos as int);
            assert(all.take(i + 1).drop_last() =~= all.take(i as int));
            assert(all.take(i + 1).last() == x);
        }
        out.insert(pos, v[i].clone());
        assert(texts(out@) =~= before.insert(pos as int, x));
        i += 1;
    }
    assert(all.take(i as int) =~= all);
    out
}

/// A flattened list holds exactly what its parts hold.
pub proof fn lemma_flat_map_contains<A, B>(s: Seq<A>, f: spec_fn(A) -> Seq<B>, x: B)
    ensures
        s.flat_map(f).contains(x) <==> exists|i: int|
            0 <= i < s.len() && f(#[trigger] s[i]).contains(x),
    decreases s.len(),
{
    if s.len() == 0 {
        assert(s.flat_map(f) =~= seq![]);
    } else {
        let rest = s.drop_last();
        lemma_flat_map_contains(rest, f, x);
        assert(s =~= rest.push(s.last()));
        rest.lemma_flat_map_push(f, s.last());
        vstd::seq_lib::lemma_seq_concat_contains_all_elements(rest.flat_map(f), f(s.last()), x);
        if s.flat_map(f).contains(x) {
            if f(s.last()).contains(x) {
                assert(f(s[s.len() - 1]).contains(x));
            } else {
                let i = choose|i: int| 0 <= i < rest.len() && f(#[trigger] rest[i]).contains(x);
                assert(f(s[i]).contains(x));
            }
        }
        if exists|i: int| 0 <= i < s.len() && f(#[trigger] s[i]).contains(x) {
            let i = choose|i: int| 0 <= i < s.len() && f(#[trigger] s[i]).contains(x);
            if i < rest.len() {
                assert(f(rest[i]).contains(x));
            }
        }
    }
}

} // verus!
