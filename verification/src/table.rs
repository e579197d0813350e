//! A table that keeps its rows in the order in which their keys first came: the
//! insertion-ordered map of `indexmap`, keyed by a number and a text.

use indexmap::IndexMap;
use vstd::prelude::*;

verus! {

/// `indexmap::IndexMap`, closed; `rows` is what it holds.
#[verifier::external_type_specification]
#[verifier::external_body]
#[verifier::reject_recursive_types(K)]
#[verifier::reject_recursive_types(V)]
#[verifier::reject_recursive_types(S)]
pub struct ExIndexMap<K, V, S>(indexmap::IndexMap<K, V, S>);

/// The rows of a table, in order.
pub uninterp spec fn rows(t: IndexMap<(usize, String), usize>) -> Seq<((usize, Seq<char>), usize)>;

/// The first row with the given key; the number of rows where there is none.
pub open spec fn row_of(s: Seq<((usize, Seq<char>), usize)>, key: (usize, Seq<char>)) -> int
    decreases s.len(),
{
    if s.len() == 0 || s[0].0 == key {
        0
    } else {
        1 + row_of(s.skip(1), key)
    }
}

/// The value under a key.
pub open spec fn lookup(s: Seq<((usize, Seq<char>), usize)>, key: (usize, Seq<char>)) -> Option<
    usize,
> {
    if row_of(s, key) < s.len() {
        Some(s[row_of(s, key)].1)
    } else {
        None
    }
}

/// Rows with a value put under a key: a key that is there stays in its place, a new
/// one goes to the end.
pub open spec fn put(
    s: Seq<((usize, Seq<char>), usize)>,
    key: (usize, Seq<char>),
    value: usize,
) -> Seq<((usize, Seq<char>), usize)> {
    if row_of(s, key) < s.len() {
        s.update(row_of(s, key), (key, value))
    } else {
        s.push((key, value))
    }
}

/// `IndexMap::new`: a table without rows.
#[verifier::external_body]
pub(crate) fn new_table() -> (r: IndexMap<(usize, String), usize>)
    ensures
        rows(r) == Seq::<((usize, Seq<char>), usize)>::empty(),
{
    IndexMap::new()
}

/// `IndexMap::insert`: an equal key keeps its place and gets the new value; a new key
/// goes to the end.
#[verifier::external_body]
pub(crate) fn put_row(
    t: &mut IndexMap<(usize, String), usize>,
    number: usize,
    text: String,
    value: usize,
)
    ensures
        rows(*final(t)) == put(rows(*old(t)), (number, text@), value),
{
    t.insert((number, text), value);
}

/// `IndexMap::get`: the value stored under the key, if there is one.
#[verifier::external_body]
pub(crate) fn value_at(t: &IndexMap<(usize, String), usize>, number: usize, text: &str) -> (r:
    Option<usize>)
    ensures
        r == lookup(rows(*t), (number, text@)),
{
    t.get(&(number, text.to_string())).copied()
}

/// `IndexMap::get_index`: the row at a place, if there are so many.
#[verifier::external_body]
pub(crate) fn row_at(t: &IndexMap<(usize, String), usize>, place: usize) -> (r: Option<
    (usize, &str, usize),
>)
    ensures
        match r {
            Some(row) => place < rows(*t).len() && rows(*t)[place as int] == (
                (row.0, row.1@),
                row.2,
            ),
            None => place >= rows(*t).len(),
        },
{
    t.get_index(place).map(|row| (row.0.0, row.0.1.as_str(), *row.1))
}

/// `IndexMap::len`: the number of rows.
#[verifier::external_body]
pub(crate) fn count_rows(t: &IndexMap<(usize, String), usize>) -> (r: usize)
    ensures
        r == rows(*t).len(),
{
    t.len()
}

/// What was put under a key is found there; other keys keep what they have.
pub proof fn law_put_then_lookup(
    s: Seq<((usize, Seq<char>), usize)>,
    key: (usize, Seq<char>),
    other: (usize, Seq<char>),
    value: usize,
)
    ensures
        lookup(put(s, key, value), other) == if other == key {
            Some(value)
        } else {
            lookup(s, other)
        },
    decreases s.len(),
{
    lemma_row_of(s, key);
    lemma_row_of(s, other);
    let t = put(s, key, value);
    lemma_row_of(t, other);
    let p = row_of(t, other);
    if other == key {
        assert(t[row_of(s, key)].0 == key);
        if p < row_of(s, key) {
            assert(t[p].0 == s[p].0);
        }
    } else {
        assert forall|i: int| 0 <= i < s.len() implies (#[trigger] t[i]).0 == s[i].0 by {}
        if p < s.len() {
            assert(t[p].0 == s[p].0);
            if row_of(s, other) < p {
                assert(t[row_of(s, other)].0 == s[row_of(s, other)].0);
            }
        } else if row_of(s, other) < s.len() {
            assert(t[row_of(s, other)].0 == s[row_of(s, other)].0);
        }
    }
}

/// Where a key stands: at its row no earlier row has it.
pub proof fn lemma_row_of(s: Seq<((usize, Seq<char>), usize)>, key: (usize, Seq<char>))
    ensures
        0 <= row_of(s, key) <= s.len(),
        row_of(s, key) < s.len() ==> s[row_of(s, key)].0 == key,
        forall|i: int| 0 <= i < row_of(s, key) ==> (#[trigger] s[i]).0 != key,
    decreases s.len(),
{
    if s.len() > 0 && s[0].0 != key {
        lemma_row_of(s.skip(1), key);
        assert forall|i: int| 0 <= i < row_of(s, key) implies (#[trigger] s[i]).0 != key by {
            if i > 0 {
                assert(s.skip(1)[i - 1] == s[i]);
            }
        }
    }
}

} // verus!
