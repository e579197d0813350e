//! How similar two texts are: the Ratcliff/Obershelp measure, which finds the
//! longest block that the texts share and goes on on both sides of it.
//!
//! Characters that are very frequent in a long second text cannot begin a block;
//! they only extend one.

use crate::config::usual_twin_similarity;
use crate::models::Ratio;
use crate::text::{chars_of, dec, decimal};
use std::collections::HashMap;
use vstd::prelude::*;
use vstd::std_specs::hash::*;

verus! {

// ── Popular characters ──────────────────────────────────────────────────────

/// From which length on a text has popular characters.
pub const POPULAR_MIN_LENGTH: usize = 200;

/// How often a character occurs in a text.
pub open spec fn count_char(b: Seq<char>, c: char) -> nat
    decreases b.len(),
{
    if b.len() == 0 {
        0
    } else {
        count_char(b.drop_last(), c) + if b.last() == c {
            1nat
        } else {
            0nat
        }
    }
}

/// Whether a character is popular in a text: the text is long, and more than one in
/// a hundred of its characters, and one more, are this one.
pub open spec fn is_popular(b: Seq<char>, c: char) -> bool {
    b.len() >= POPULAR_MIN_LENGTH && count_char(b, c) > b.len() / 100 + 1
}

// ── The longest block ───────────────────────────────────────────────────────

/// A block that two texts share: where it begins in each, and its length.
pub struct Block {
    pub i: int,
    pub j: int,
    pub size: int,
}

/// The length of the common run of unpopular characters that ends with `a[i]` and
/// `b[j]`, and begins no further left than `alo` and `blo`.
pub open spec fn run(a: Seq<char>, b: Seq<char>, alo: int, blo: int, i: int, j: int) -> int
    decreases i - alo + 1,
{
    if i < alo || j < blo || a[i] != b[j] || is_popular(b, b[j]) {
        0
    } else {
        1 + run(a, b, alo, blo, i - 1, j - 1)
    }
}

/// The longest run that ends in row `i`, at a column before `j`, or `best` where none
/// is longer than that.
pub open spec fn best_in_row(
    a: Seq<char>,
    b: Seq<char>,
    alo: int,
    blo: int,
    i: int,
    j: int,
    best: Block,
) -> Block
    decreases j - blo,
{
    if j <= blo {
        best
    } else {
        let before = best_in_row(a, b, alo, blo, i, j - 1, best);
        let k = run(a, b, alo, blo, i, j - 1);
        if k > before.size {
            Block { i: i + 1 - k, j: j - k, size: k }
        } else {
            before
        }
    }
}

/// The longest run that ends before row `i`, of several the first.
pub open spec fn best_above(
    a: Seq<char>,
    b: Seq<char>,
    alo: int,
    blo: int,
    bhi: int,
    i: int,
) -> Block
    decreases i - alo,
{
    if i <= alo {
        Block { i: alo, j: blo, size: 0 }
    } else {
        best_in_row(a, b, alo, blo, i - 1, bhi, best_above(a, b, alo, blo, bhi, i - 1))
    }
}

/// How far a block that begins at `i` and `j` can be extended to the left through
/// characters that are popular or through ones that are not.
pub open spec fn reach_left(
    a: Seq<char>,
    b: Seq<char>,
    alo: int,
    blo: int,
    i: int,
    j: int,
    popular: bool,
) -> int
    decreases i - alo,
{
    if i > alo && j > blo && is_popular(b, b[j - 1]) == popular && a[i - 1] == b[j - 1] {
        1 + reach_left(a, b, alo, blo, i - 1, j - 1, popular)
    } else {
        0
    }
}

/// How far a block that ends before `i` and `j` can be extended to the right.
pub open spec fn reach_right(
    a: Seq<char>,
    b: Seq<char>,
    ahi: int,
    bhi: int,
    i: int,
    j: int,
    popular: bool,
) -> int
    decreases ahi - i,
{
    if i < ahi && j < bhi && is_popular(b, b[j]) == popular && a[i] == b[j] {
        1 + reach_right(a, b, ahi, bhi, i + 1, j + 1, popular)
    } else {
        0
    }
}

/// A block extended to the left.
pub open spec fn grown_left(
    a: Seq<char>,
    b: Seq<char>,
    alo: int,
    blo: int,
    m: Block,
    popular: bool,
) -> Block {
    let n = reach_left(a, b, alo, blo, m.i, m.j, popular);
    Block { i: m.i - n, j: m.j - n, size: m.size + n }
}

/// A block extended to the right.
pub open spec fn grown_right(
    a: Seq<char>,
    b: Seq<char>,
    ahi: int,
    bhi: int,
    m: Block,
    popular: bool,
) -> Block {
    let n = reach_right(a, b, ahi, bhi, m.i + m.size, m.j + m.size, popular);
    Block { i: m.i, j: m.j, size: m.size + n }
}

/// The longest block of unpopular characters that `a[alo..ahi]` and `b[blo..bhi]`
/// share, of several the first, extended through unpopular and then through popular
/// characters.
pub open spec fn longest(
    a: Seq<char>,
    b: Seq<char>,
    alo: int,
    ahi: int,
    blo: int,
    bhi: int,
) -> Block {
    let core = best_above(a, b, alo, blo, bhi, ahi);
    let left = grown_left(a, b, alo, blo, core, false);
    let right = grown_right(a, b, ahi, bhi, left, false);
    let wide_left = grown_left(a, b, alo, blo, right, true);
    grown_right(a, b, ahi, bhi, wide_left, true)
}

/// Whether a block lies in the two ranges.
pub open spec fn lies_in(m: Block, alo: int, ahi: int, blo: int, bhi: int) -> bool {
    &&& alo <= m.i
    &&& blo <= m.j
    &&& 0 <= m.size
    &&& m.i + m.size <= ahi
    &&& m.j + m.size <= bhi
}

/// Whether a block holds the same characters in both texts.
pub open spec fn is_common(a: Seq<char>, b: Seq<char>, m: Block) -> bool {
    forall|k: int| 0 <= k < m.size ==> #[trigger] a[m.i + k] == b[m.j + k]
}

/// How many characters the blocks that `a[alo..ahi]` and `b[blo..bhi]` share have:
/// those of the longest block, of the parts before it and of the parts behind it.
pub open spec fn matched(
    a: Seq<char>,
    b: Seq<char>,
    alo: int,
    ahi: int,
    blo: int,
    bhi: int,
) -> int
    decreases ahi - alo,
{
    let m = longest(a, b, alo, ahi, blo, bhi);
    if !(alo <= ahi && blo <= bhi) || m.size == 0 {
        0
    } else {
        proof {
            law_longest_block(a, b, alo, ahi, blo, bhi);
        }
        m.size + (if alo < m.i && blo < m.j {
            matched(a, b, alo, m.i, blo, m.j)
        } else {
            0
        }) + (if m.i + m.size < ahi && m.j + m.size < bhi {
            matched(a, b, m.i + m.size, ahi, m.j + m.size, bhi)
        } else {
            0
        })
    }
}

// ── What the longest block is ───────────────────────────────────────────────

proof fn lemma_run(a: Seq<char>, b: Seq<char>, alo: int, blo: int, i: int, j: int)
    requires
        i >= alo - 1,
        j >= blo - 1,
    ensures
        0 <= run(a, b, alo, blo, i, j) <= i - alo + 1,
        run(a, b, alo, blo, i, j) <= j - blo + 1,
        forall|k: int|
            0 <= k < run(a, b, alo, blo, i, j) ==> #[trigger] a[i - k] == b[j - k],
    decreases i - alo + 1,
{
    if !(i < alo || j < blo || a[i] != b[j] || is_popular(b, b[j])) {
        lemma_run(a, b, alo, blo, i - 1, j - 1);
        assert forall|k: int| 0 <= k < run(a, b, alo, blo, i, j) implies #[trigger] a[i - k] == b[j
            - k] by {
            if k > 0 {
                assert(a[(i - 1) - (k - 1)] == b[(j - 1) - (k - 1)]);
            }
        }
    }
}

proof fn lemma_run_is_block(a: Seq<char>, b: Seq<char>, alo: int, blo: int, i: int, j: int)
    requires
        i >= alo,
        j >= blo,
    ensures
        ({
            let k = run(a, b, alo, blo, i, j);
            &&& lies_in(Block { i: i + 1 - k, j: j + 1 - k, size: k }, alo, i + 1, blo, j + 1)
            &&& is_common(a, b, Block { i: i + 1 - k, j: j + 1 - k, size: k })
        }),
{
    lemma_run(a, b, alo, blo, i, j);
    let k = run(a, b, alo, blo, i, j);
    let m = Block { i: i + 1 - k, j: j + 1 - k, size: k };
    assert forall|x: int| 0 <= x < m.size implies #[trigger] a[m.i + x] == b[m.j + x] by {
        assert(a[i - (k - 1 - x)] == b[j - (k - 1 - x)]);
    }
}

/// A row leaves a block that lies in the ranges and is common, and at least as long
/// as each run in the row.
proof fn lemma_best_in_row(
    a: Seq<char>,
    b: Seq<char>,
    alo: int,
    blo: int,
    bhi: int,
    i: int,
    j: int,
    best: Block,
)
    requires
        alo <= i,
        blo <= j <= bhi,
        lies_in(best, alo, i, blo, bhi),
        is_common(a, b, best),
    ensures
        lies_in(best_in_row(a, b, alo, blo, i, j, best), alo, i + 1, blo, bhi),
        is_common(a, b, best_in_row(a, b, alo, blo, i, j, best)),
        best_in_row(a, b, alo, blo, i, j, best).size >= best.size,
        forall|y: int|
            blo <= y < j ==> #[trigger] run(a, b, alo, blo, i, y) <= best_in_row(
                a,
                b,
                alo,
                blo,
                i,
                j,
                best,
            ).size,
    decreases j - blo,
{
    if j > blo {
        lemma_best_in_row(a, b, alo, blo, bhi, i, j - 1, best);
        lemma_run_is_block(a, b, alo, blo, i, j - 1);
    }
}

proof fn lemma_best_above(
    a: Seq<char>,
    b: Seq<char>,
    alo: int,
    blo: int,
    bhi: int,
    i: int,
)
    requires
        alo <= i,
        blo <= bhi,
    ensures
        lies_in(best_above(a, b, alo, blo, bhi, i), alo, i, blo, bhi),
        is_common(a, b, best_above(a, b, alo, blo, bhi, i)),
        forall|x: int, y: int|
            alo <= x < i && blo <= y < bhi ==> #[trigger] run(a, b, alo, blo, x, y) <= best_above(
                a,
                b,
                alo,
                blo,
                bhi,
                i,
            ).size,
    decreases i - alo,
{
    if i > alo {
        lemma_best_above(a, b, alo, blo, bhi, i - 1);
        let above = best_above(a, b, alo, blo, bhi, i - 1);
        lemma_best_in_row(a, b, alo, blo, bhi, i - 1, bhi, above);
        let now = best_above(a, b, alo, blo, bhi, i);
        assert forall|x: int, y: int| alo <= x < i && blo <= y < bhi implies #[trigger] run(
            a,
            b,
            alo,
            blo,
            x,
            y,
        ) <= now.size by {
            if x < i - 1 {
                assert(run(a, b, alo, blo, x, y) <= above.size);
            }
        }
    }
}

proof fn lemma_grown_left(
    a: Seq<char>,
    b: Seq<char>,
    alo: int,
    ahi: int,
    blo: int,
    bhi: int,
    m: Block,
    popular: bool,
)
    requires
        lies_in(m, alo, ahi, blo, bhi),
        is_common(a, b, m),
    ensures
        lies_in(grown_left(a, b, alo, blo, m, popular), alo, ahi, blo, bhi),
        is_common(a, b, grown_left(a, b, alo, blo, m, popular)),
        grown_left(a, b, alo, blo, m, popular).size >= m.size,
    decreases m.i - alo,
{
    if m.i > alo && m.j > blo && is_popular(b, b[m.j - 1]) == popular && a[m.i - 1] == b[m.j - 1] {
        let wider = Block { i: m.i - 1, j: m.j - 1, size: m.size + 1 };
        assert forall|k: int| 0 <= k < wider.size implies #[trigger] a[wider.i + k] == b[wider.j
            + k] by {
            if k > 0 {
                assert(a[m.i + (k - 1)] == b[m.j + (k - 1)]);
            }
        }
        lemma_grown_left(a, b, alo, ahi, blo, bhi, wider, popular);
    }
}

proof fn lemma_grown_right(
    a: Seq<char>,
    b: Seq<char>,
    alo: int,
    ahi: int,
    blo: int,
    bhi: int,
    m: Block,
    popular: bool,
)
    requires
        lies_in(m, alo, ahi, blo, bhi),
        is_common(a, b, m),
    ensures
        lies_in(grown_right(a, b, ahi, bhi, m, popular), alo, ahi, blo, bhi),
        is_common(a, b, grown_right(a, b, ahi, bhi, m, popular)),
        grown_right(a, b, ahi, bhi, m, popular).size >= m.size,
    decreases ahi - (m.i + m.size),
{
    let i = m.i + m.size;
    let j = m.j + m.size;
    if i < ahi && j < bhi && is_popular(b, b[j]) == popular && a[i] == b[j] {
        let wider = Block { i: m.i, j: m.j, size: m.size + 1 };
        assert forall|k: int| 0 <= k < wider.size implies #[trigger] a[wider.i + k] == b[wider.j
            + k] by {
            if k < m.size {
                assert(a[m.i + k] == b[m.j + k]);
            }
        }
        lemma_grown_right(a, b, alo, ahi, blo, bhi, wider, popular);
    }
}

/// The block found lies in the two ranges, holds the same characters in both, and no
/// run of unpopular characters in the ranges is longer.
pub proof fn law_longest_block(a: Seq<char>, b: Seq<char>, alo: int, ahi: int, blo: int, bhi: int)
    requires
        alo <= ahi,
        blo <= bhi,
    ensures
        lies_in(longest(a, b, alo, ahi, blo, bhi), alo, ahi, blo, bhi),
        is_common(a, b, longest(a, b, alo, ahi, blo, bhi)),
        forall|x: int, y: int|
            alo <= x < ahi && blo <= y < bhi ==> #[trigger] run(a, b, alo, blo, x, y) <= longest(
                a,
                b,
                alo,
                ahi,
                blo,
                bhi,
            ).size,
{
    let core = best_above(a, b, alo, blo, bhi, ahi);
    lemma_best_above(a, b, alo, blo, bhi, ahi);
    lemma_grown_left(a, b, alo, ahi, blo, bhi, core, false);
    let left = grown_left(a, b, alo, blo, core, false);
    lemma_grown_right(a, b, alo, ahi, blo, bhi, left, false);
    let right = grown_right(a, b, ahi, bhi, left, false);
    lemma_grown_left(a, b, alo, ahi, blo, bhi, right, true);
    let wide_left = grown_left(a, b, alo, blo, right, true);
    lemma_grown_right(a, b, alo, ahi, blo, bhi, wide_left, true);
}

/// No more characters match than either range has.
pub proof fn law_matched_is_bounded(
    a: Seq<char>,
    b: Seq<char>,
    alo: int,
    ahi: int,
    blo: int,
    bhi: int,
)
    requires
        alo <= ahi,
        blo <= bhi,
    ensures
        0 <= matched(a, b, alo, ahi, blo, bhi) <= ahi - alo,
        matched(a, b, alo, ahi, blo, bhi) <= bhi - blo,
    decreases ahi - alo,
{
    let m = longest(a, b, alo, ahi, blo, bhi);
    law_longest_block(a, b, alo, ahi, blo, bhi);
    if m.size > 0 {
        if alo < m.i && blo < m.j {
            law_matched_is_bounded(a, b, alo, m.i, blo, m.j);
        }
        if m.i + m.size < ahi && m.j + m.size < bhi {
            law_matched_is_bounded(a, b, m.i + m.size, ahi, m.j + m.size, bhi);
        }
    }
}

// ── Finding it ──────────────────────────────────────────────────────────────

/// Two texts that are compared, and which characters of the second are popular.
struct Matcher<'a> {
    a: &'a [char],
    b: &'a [char],
    popular: Vec<bool>,
}

spec fn counted(counts: Map<u32, usize>, c: char) -> nat {
    if counts.contains_key(c as u32) {
        counts[c as u32] as nat
    } else {
        0
    }
}

proof fn lemma_count_char(b: Seq<char>, c: char)
    ensures
        count_char(b, c) <= b.len(),
    decreases b.len(),
{
    if b.len() > 0 {
        lemma_count_char(b.drop_last(), c);
    }
}

proof fn lemma_char_number(c: char)
    ensures
        c as u32 == c as int,
{
}

fn count_chars(b: &[char]) -> (r: HashMap<u32, usize>)
    ensures
        forall|c: char| #[trigger] counted(r@, c) == count_char(b@, c),
{
    broadcast use group_hash_axioms;

    let mut counts: HashMap<u32, usize> = HashMap::new();
    let total: usize = b.len();
    let mut i: usize = 0;
    while i < total
        invariant
            i <= total,
            total == b@.len(),
            forall|c: char| #[trigger] counted(counts@, c) == count_char(b@.take(i as int), c),
        decreases total - i,
    {
        let c = b[i];
        let key: u32 = c as u32;
        let ghost before = counts@;
        let n: usize = match counts.get(&key) {
            Some(n) => *n,
            None => 0,
        };
        assert(n == counted(before, c));
        proof {
            lemma_count_char(b@.take(i as int), c);
        }
        counts.insert(key, n + 1);
        proof {
            assert(b@.take(i + 1).drop_last() =~= b@.take(i as int));
            assert(b@.take(i + 1).last() == c);
            assert forall|d: char| #[trigger] counted(counts@, d) == count_char(
                b@.take(i + 1),
                d,
            ) by {
                assert(counted(before, d) == count_char(b@.take(i as int), d));
                lemma_char_number(c);
                lemma_char_number(d);
            }
        }
        i += 1;
    }
    assert(b@.take(i as int) =~= b@);
    counts
}

impl<'a> Matcher<'a> {
    spec fn well_formed(self) -> bool {
        &&& self.popular@.len() == self.b@.len()
        &&& forall|j: int|
            0 <= j < self.b@.len() ==> #[trigger] self.popular@[j] == is_popular(
                self.b@,
                self.b@[j],
            )
    }

    fn new(a: &'a [char], b: &'a [char]) -> (r: Self)
        ensures
            r.well_formed(),
            r.a@ == a@,
            r.b@ == b@,
    {
        broadcast use group_hash_axioms;

        let counts = count_chars(b);
        let n: usize = b.len();
        let ntest: usize = n / 100 + 1;
        let mut popular: Vec<bool> = Vec::new();
        let mut j: usize = 0;
        while j < n
            invariant
                j <= n,
                n == b@.len(),
                ntest == n / 100 + 1,
                popular@.len() == j,
                forall|c: char| #[trigger] counted(counts@, c) == count_char(b@, c),
                forall|k: int| 0 <= k < j ==> #[trigger] popular@[k] == is_popular(b@, b@[k]),
            decreases n - j,
        {
            let key: u32 = b[j] as u32;
            let count: usize = match counts.get(&key) {
                Some(count) => *count,
                None => 0,
            };
            assert(count == counted(counts@, b@[j as int]));
            popular.push(n >= POPULAR_MIN_LENGTH && count > ntest);
            j += 1;
        }
        Matcher { a, b, popular }
    }

    /// The longest block that `a[alo..ahi]` and `b[blo..bhi]` share: where it begins
    /// in each, and its length.
    fn find_longest_match(&self, alo: usize, ahi: usize, blo: usize, bhi: usize) -> (r: (
        usize,
        usize,
        usize,
    ))
        requires
            self.well_formed(),
            alo <= ahi <= self.a@.len(),
            blo <= bhi <= self.b@.len(),
        ensures
            (Block { i: r.0 as int, j: r.1 as int, size: r.2 as int }) == longest(
                self.a@,
                self.b@,
                alo as int,
                ahi as int,
                blo as int,
                bhi as int,
            ),
    {
        let (besti, bestj, bestsize) = self.find_core(alo, ahi, blo, bhi);
        let ghost a = self.a@;
        let ghost b = self.b@;
        let ghost core = best_above(a, b, alo as int, blo as int, bhi as int, ahi as int);
        proof {
            lemma_best_above(a, b, alo as int, blo as int, bhi as int, ahi as int);
            lemma_grown_left(
                a,
                b,
                alo as int,
                ahi as int,
                blo as int,
                bhi as int,
                core,
                false,
            );
            let left = grown_left(a, b, alo as int, blo as int, core, false);
            lemma_grown_right(a, b, alo as int, ahi as int, blo as int, bhi as int, left, false);
            let right = grown_right(a, b, ahi as int, bhi as int, left, false);
            lemma_grown_left(a, b, alo as int, ahi as int, blo as int, bhi as int, right, true);
        }
        let (i, j, size) = self.extend_left(alo, ahi, blo, bhi, besti, bestj, bestsize, false);
        let size: usize = self.extend_right(alo, ahi, blo, bhi, i, j, size, false);
        let (i, j, size) = self.extend_left(alo, ahi, blo, bhi, i, j, size, true);
        let size: usize = self.extend_right(alo, ahi, blo, bhi, i, j, size, true);
        (i, j, size)
    }

    /// The longest run of unpopular characters, of several the first.
    fn find_core(&self, alo: usize, ahi: usize, blo: usize, bhi: usize) -> (r: (
        usize,
        usize,
        usize,
    ))
        requires
            self.well_formed(),
            alo <= ahi <= self.a@.len(),
            blo <= bhi <= self.b@.len(),
        ensures
            (Block { i: r.0 as int, j: r.1 as int, size: r.2 as int }) == best_above(
                self.a@,
                self.b@,
                alo as int,
                blo as int,
                bhi as int,
                ahi as int,
            ),
    {
        let ghost a = self.a@;
        let ghost b = self.b@;
        let width: usize = bhi - blo;
        let mut besti: usize = alo;
        let mut bestj: usize = blo;
        let mut bestsize: usize = 0;
        let mut row: Vec<usize> = Vec::new();
        let mut c: usize = 0;
        while c < width
            invariant
                c <= width,
                row@.len() == c,
                forall|k: int|
                    0 <= k < c ==> #[trigger] row@[k] == run(
                        a,
                        b,
                        alo as int,
                        blo as int,
                        alo - 1,
                        blo + k,
                    ),
            decreases width - c,
        {
            row.push(0);
            c += 1;
        }
        let mut i: usize = alo;
        while i < ahi
            invariant
                self.well_formed(),
                a == self.a@,
                b == self.b@,
                alo <= i <= ahi <= a.len(),
                blo <= bhi <= b.len(),
                width == bhi - blo,
                row@.len() == width,
                forall|k: int|
                    0 <= k < width ==> #[trigger] row@[k] == run(
                        a,
                        b,
                        alo as int,
                        blo as int,
                        i - 1,
                        blo + k,
                    ),
                (Block { i: besti as int, j: bestj as int, size: bestsize as int }) == best_above(
                    a,
                    b,
                    alo as int,
                    blo as int,
                    bhi as int,
                    i as int,
                ),
            decreases ahi - i,
        {
            let ghost above = best_above(a, b, alo as int, blo as int, bhi as int, i as int);
            let mut next: Vec<usize> = Vec::new();
            let mut c: usize = 0;
            while c < width
                invariant
                    self.well_formed(),
                    a == self.a@,
                    b == self.b@,
                    alo <= i < ahi <= a.len(),
                    blo <= bhi <= b.len(),
                    width == bhi - blo,
                    c <= width,
                    row@.len() == width,
                    next@.len() == c,
                    forall|k: int|
                        0 <= k < width ==> #[trigger] row@[k] == run(
                            a,
                            b,
                            alo as int,
                            blo as int,
                            i - 1,
                            blo + k,
                        ),
                    forall|k: int|
                        0 <= k < c ==> #[trigger] next@[k] == run(
                            a,
                            b,
                            alo as int,
                            blo as int,
                            i as int,
                            blo + k,
                        ),
                    (Block { i: besti as int, j: bestj as int, size: bestsize as int })
                        == best_in_row(
                        a,
                        b,
                        alo as int,
                        blo as int,
                        i as int,
                        blo + c,
                        above,
                    ),
                decreases width - c,
            {
                let j: usize = blo + c;
                let mut k: usize = 0;
                proof {
                    lemma_run(a, b, alo as int, blo as int, i as int, j as int);
                    assert(run(a, b, alo as int, blo as int, i - 1, blo - 1) == 0);
                    if c > 0 {
                        assert(row@[c - 1] == run(
                            a,
                            b,
                            alo as int,
                            blo as int,
                            i - 1,
                            blo + (c - 1),
                        ));
                    }
                }
                if self.a[i] == self.b[j] && !self.popular[j] {
                    k = if c > 0 {
                        row[c - 1] + 1
                    } else {
                        1
                    };
                }
                assert(k == run(a, b, alo as int, blo as int, i as int, j as int));
                next.push(k);
                if k > bestsize {
                    besti = i + 1 - k;
                    bestj = j + 1 - k;
                    bestsize = k;
                }
                c += 1;
            }
            row = next;
            i += 1;
        }
        (besti, bestj, bestsize)
    }

    fn extend_left(
        &self,
        alo: usize,
        ahi: usize,
        blo: usize,
        bhi: usize,
        i: usize,
        j: usize,
        size: usize,
        popular: bool,
    ) -> (r: (usize, usize, usize))
        requires
            self.well_formed(),
            ahi <= self.a@.len(),
            bhi <= self.b@.len(),
            lies_in(
                (Block { i: i as int, j: j as int, size: size as int }),
                alo as int,
                ahi as int,
                blo as int,
                bhi as int,
            ),
        ensures
            (Block { i: r.0 as int, j: r.1 as int, size: r.2 as int }) == grown_left(
                self.a@,
                self.b@,
                alo as int,
                blo as int,
                (Block { i: i as int, j: j as int, size: size as int }),
                popular,
            ),
    {
        let ghost m = Block { i: i as int, j: j as int, size: size as int };
        let ghost a = self.a@;
        let ghost b = self.b@;
        let mut besti: usize = i;
        let mut bestj: usize = j;
        let mut bestsize: usize = size;
        while besti > alo && bestj > blo && self.popular[bestj - 1] == popular && self.a[besti - 1]
            == self.b[bestj - 1]
            invariant
                self.well_formed(),
                a == self.a@,
                b == self.b@,
                ahi <= a.len(),
                bhi <= b.len(),
                lies_in(
                    (Block { i: besti as int, j: bestj as int, size: bestsize as int }),
                    alo as int,
                    ahi as int,
                    blo as int,
                    bhi as int,
                ),
                grown_left(a, b, alo as int, blo as int, m, popular) == grown_left(
                    a,
                    b,
                    alo as int,
                    blo as int,
                    (Block { i: besti as int, j: bestj as int, size: bestsize as int }),
                    popular,
                ),
            decreases besti,
        {
            besti -= 1;
            bestj -= 1;
            bestsize += 1;
        }
        (besti, bestj, bestsize)
    }

    fn extend_right(
        &self,
        alo: usize,
        ahi: usize,
        blo: usize,
        bhi: usize,
        i: usize,
        j: usize,
        size: usize,
        popular: bool,
    ) -> (r: usize)
        requires
            self.well_formed(),
            ahi <= self.a@.len(),
            bhi <= self.b@.len(),
            lies_in(
                (Block { i: i as int, j: j as int, size: size as int }),
                alo as int,
                ahi as int,
                blo as int,
                bhi as int,
            ),
        ensures
            (Block { i: i as int, j: j as int, size: r as int }) == grown_right(
                self.a@,
                self.b@,
                ahi as int,
                bhi as int,
                (Block { i: i as int, j: j as int, size: size as int }),
                popular,
            ),
    {
        let ghost m = Block { i: i as int, j: j as int, size: size as int };
        let ghost a = self.a@;
        let ghost b = self.b@;
        let mut bestsize: usize = size;
        while i + bestsize < ahi && j + bestsize < bhi && self.popular[j + bestsize] == popular
            && self.a[i + bestsize] == self.b[j + bestsize]
            invariant
                self.well_formed(),
                a == self.a@,
                b == self.b@,
                ahi <= a.len(),
                bhi <= b.len(),
                lies_in(
                    (Block { i: i as int, j: j as int, size: bestsize as int }),
                    alo as int,
                    ahi as int,
                    blo as int,
                    bhi as int,
                ),
                grown_right(a, b, ahi as int, bhi as int, m, popular) == grown_right(
                    a,
                    b,
                    ahi as int,
                    bhi as int,
                    (Block { i: i as int, j: j as int, size: bestsize as int }),
                    popular,
                ),
            decreases ahi - bestsize,
        {
            bestsize += 1;
        }
        bestsize
    }

    /// How many characters the blocks that the texts share have in all.
    fn total_matched(&self) -> (r: usize)
        requires
            self.well_formed(),
        ensures
            r == matched(self.a@, self.b@, 0, self.a@.len() as int, 0, self.b@.len() as int),
    {
        let ghost a = self.a@;
        let ghost b = self.b@;
        let ghost whole = matched(a, b, 0, a.len() as int, 0, b.len() as int);
        let mut total: usize = 0;
        let mut queue: Vec<(usize, usize, usize, usize)> = Vec::new();
        let length: usize = self.a.len();
        queue.push((0, length, 0, self.b.len()));
        proof {
            law_matched_is_bounded(a, b, 0, a.len() as int, 0, b.len() as int);
            reveal_with_fuel(pending, 2);
            reveal_with_fuel(effort, 2);
        }
        while queue.len() > 0
            invariant
                self.well_formed(),
                a == self.a@,
                b == self.b@,
                whole <= a.len() == length,
                all_in(queue@, a.len(), b.len()),
                total + pending(a, b, queue@) == whole,
            decreases effort(queue@),
        {
            let ghost before = queue@;
            let (alo, ahi, blo, bhi) = match queue.pop() {
                Some(x) => x,
                None => (0, 0, 0, 0),
            };
            let ghost rest = queue@;
            assert(before.last() == (alo, ahi, blo, bhi));
            assert(before.drop_last() =~= rest);
            assert(before[before.len() - 1] == (alo, ahi, blo, bhi));
            let (i, j, k) = self.find_longest_match(alo, ahi, blo, bhi);
            proof {
                law_longest_block(a, b, alo as int, ahi as int, blo as int, bhi as int);
                lemma_pending(a, b, rest);
                let m = longest(a, b, alo as int, ahi as int, blo as int, bhi as int);
                assert(m.i == i && m.j == j && m.size == k);
                assert(pending(a, b, before) == pending(a, b, rest) + matched(
                    a,
                    b,
                    alo as int,
                    ahi as int,
                    blo as int,
                    bhi as int,
                ));
                assert(k > 0 ==> matched(
                    a,
                    b,
                    alo as int,
                    ahi as int,
                    blo as int,
                    bhi as int,
                ) == k + (if alo < i && blo < j {
                    matched(a, b, alo as int, i as int, blo as int, j as int)
                } else {
                    0
                }) + (if i + k < ahi && j + k < bhi {
                    matched(a, b, i + k, ahi as int, j + k, bhi as int)
                } else {
                    0
                }));
            }
            if k > 0 {
                proof {
                    law_matched_is_bounded(a, b, alo as int, ahi as int, blo as int, bhi as int);
                    if alo < i && blo < j {
                        law_matched_is_bounded(a, b, alo as int, i as int, blo as int, j as int);
                    }
                    if i + k < ahi && j + k < bhi {
                        law_matched_is_bounded(a, b, i + k, ahi as int, j + k, bhi as int);
                    }
                }
                total += k;
                if alo < i && blo < j {
                    queue.push((alo, i, blo, j));
                    assert(queue@.drop_last() =~= rest);
                    assert(pending(a, b, queue@) == pending(a, b, rest) + matched(
                        a,
                        b,
                        alo as int,
                        i as int,
                        blo as int,
                        j as int,
                    ));
                    assert(effort(queue@) == effort(rest) + 2 * (i - alo) + 1);
                }
                let ghost middle = queue@;
                if i + k < ahi && j + k < bhi {
                    queue.push((i + k, ahi, j + k, bhi));
                    assert(queue@.drop_last() =~= middle);
                    assert(pending(a, b, queue@) == pending(a, b, middle) + matched(
                        a,
                        b,
                        i + k,
                        ahi as int,
                        j + k,
                        bhi as int,
                    ));
                    assert(effort(queue@) == effort(middle) + 2 * (ahi - (i + k)) + 1);
                }
            }
        }
        total
    }
}

/// How many characters match in the pairs of ranges that are still to be compared.
spec fn pending(a: Seq<char>, b: Seq<char>, queue: Seq<(usize, usize, usize, usize)>) -> int
    decreases queue.len(),
{
    if queue.len() == 0 {
        0
    } else {
        let x = queue.last();
        pending(a, b, queue.drop_last()) + matched(
            a,
            b,
            x.0 as int,
            x.1 as int,
            x.2 as int,
            x.3 as int,
        )
    }
}

/// Whether all pairs of ranges lie in the texts.
spec fn all_in(queue: Seq<(usize, usize, usize, usize)>, la: nat, lb: nat) -> bool {
    forall|k: int|
        0 <= k < queue.len() ==> (#[trigger] queue[k]).0 <= queue[k].1 <= la && queue[k].2
            <= queue[k].3 <= lb
}

/// How much is still to be compared at most.
spec fn effort(queue: Seq<(usize, usize, usize, usize)>) -> nat
    decreases queue.len(),
{
    if queue.len() == 0 {
        0
    } else {
        effort(queue.drop_last()) + (if queue.last().0 <= queue.last().1 {
            (2 * (queue.last().1 - queue.last().0) + 1) as nat
        } else {
            1nat
        })
    }
}

proof fn lemma_pending(a: Seq<char>, b: Seq<char>, queue: Seq<(usize, usize, usize, usize)>)
    requires
        all_in(queue, a.len(), b.len()),
    ensures
        pending(a, b, queue) >= 0,
    decreases queue.len(),
{
    if queue.len() > 0 {
        let x = queue.last();
        assert(queue[queue.len() - 1] == x);
        let rest = queue.drop_last();
        assert forall|k: int| 0 <= k < rest.len() implies (#[trigger] rest[k]).0 <= rest[k].1
            <= a.len() && rest[k].2 <= rest[k].3 <= b.len() by {
            assert(rest[k] == queue[k]);
        }
        lemma_pending(a, b, rest);
        law_matched_is_bounded(a, b, x.0 as int, x.1 as int, x.2 as int, x.3 as int);
    }
}

// ── Identical texts ─────────────────────────────────────────────────────────

proof fn lemma_run_is_symmetric(a: Seq<char>, lo: int, i: int, j: int)
    requires
        lo - 1 <= i,
        lo - 1 <= j,
    ensures
        run(a, a, lo, lo, i, j) == run(a, a, lo, lo, j, i),
    decreases i - lo + 1,
{
    if !(i < lo || j < lo || a[i] != a[j] || is_popular(a, a[j])) {
        lemma_run_is_symmetric(a, lo, i - 1, j - 1);
    }
}

proof fn lemma_diagonal_run_is_longest(a: Seq<char>, lo: int, i: int, j: int)
    requires
        lo - 1 <= i <= j,
    ensures
        run(a, a, lo, lo, i, j) <= run(a, a, lo, lo, i, i),
    decreases i - lo + 1,
{
    lemma_run(a, a, lo, lo, i, i);
    if !(i < lo || a[i] != a[j] || is_popular(a, a[j])) {
        lemma_diagonal_run_is_longest(a, lo, i - 1, j - 1);
    }
}

/// In a text compared with itself, a row leaves a block on the diagonal.
proof fn lemma_row_keeps_diagonal(a: Seq<char>, lo: int, hi: int, i: int, j: int)
    requires
        lo <= i < hi,
        lo <= j <= hi,
        best_above(a, a, lo, lo, hi, i).i == best_above(a, a, lo, lo, hi, i).j,
    ensures
        ({
            let above = best_above(a, a, lo, lo, hi, i);
            let now = best_in_row(a, a, lo, lo, i, j, above);
            &&& now.i == now.j
            &&& j <= i ==> now == above
        }),
    decreases j - lo,
{
    let above = best_above(a, a, lo, lo, hi, i);
    if j > lo {
        lemma_row_keeps_diagonal(a, lo, hi, i, j - 1);
        lemma_best_above(a, a, lo, lo, hi, i);
        let before = best_in_row(a, a, lo, lo, i, j - 1, above);
        if j - 1 < i {
            lemma_run_is_symmetric(a, lo, i, j - 1);
            assert(run(a, a, lo, lo, j - 1, i) <= above.size);
        } else if j - 1 > i {
            lemma_diagonal_run_is_longest(a, lo, i, j - 1);
            lemma_best_in_row(a, a, lo, lo, hi, i, j - 1, above);
            assert(run(a, a, lo, lo, i, i) <= before.size);
        }
    }
}

proof fn lemma_core_is_diagonal(a: Seq<char>, lo: int, hi: int, i: int)
    requires
        lo <= i <= hi,
    ensures
        best_above(a, a, lo, lo, hi, i).i == best_above(a, a, lo, lo, hi, i).j,
    decreases i - lo,
{
    if i > lo {
        lemma_core_is_diagonal(a, lo, hi, i - 1);
        lemma_row_keeps_diagonal(a, lo, hi, i - 1, hi);
    }
}

proof fn lemma_popular_stretch(a: Seq<char>, i: int, hi: int)
    requires
        i <= hi,
        forall|k: int| i <= k < hi ==> is_popular(a, #[trigger] a[k]),
    ensures
        reach_right(a, a, hi, hi, i, i, true) == hi - i,
    decreases hi - i,
{
    if i < hi {
        assert(is_popular(a, a[i]));
        lemma_popular_stretch(a, i + 1, hi);
    }
}

/// Where all characters are popular no row changes the block.
proof fn lemma_no_core(a: Seq<char>, lo: int, hi: int, i: int, j: int)
    requires
        lo <= i <= hi,
        lo <= j <= hi,
        forall|k: int| lo <= k < hi ==> is_popular(a, #[trigger] a[k]),
    ensures
        best_above(a, a, lo, lo, hi, i) == (Block { i: lo, j: lo, size: 0 }),
        i < hi ==> best_in_row(a, a, lo, lo, i, j, best_above(a, a, lo, lo, hi, i)) == (Block {
            i: lo,
            j: lo,
            size: 0,
        }),
    decreases i - lo, j - lo,
{
    if i > lo {
        lemma_no_core(a, lo, hi, i - 1, hi);
    }
    if j > lo {
        lemma_no_core(a, lo, hi, i, j - 1);
        assert(is_popular(a, a[j - 1]));
    }
}

/// Of identical texts every character matches, in every range.
pub proof fn law_identical_texts_match(a: Seq<char>, lo: int, hi: int)
    requires
        lo <= hi,
    ensures
        matched(a, a, lo, hi, lo, hi) == hi - lo,
    decreases hi - lo,
{
    let core = best_above(a, a, lo, lo, hi, hi);
    let m = longest(a, a, lo, hi, lo, hi);
    law_longest_block(a, a, lo, hi, lo, hi);
    lemma_core_is_diagonal(a, lo, hi, hi);
    assert(m.i == m.j);
    if lo < hi {
        if exists|k: int| lo <= k < hi && !is_popular(a, #[trigger] a[k]) {
            let k = choose|k: int| lo <= k < hi && !is_popular(a, #[trigger] a[k]);
            lemma_run(a, a, lo, lo, k - 1, k - 1);
            assert(run(a, a, lo, lo, k, k) >= 1);
        } else {
            assert(is_popular(a, a[lo]));
            lemma_no_core(a, lo, hi, hi, lo);
            lemma_popular_stretch(a, lo, hi);
        }
        if lo < m.i {
            law_identical_texts_match(a, lo, m.i);
        }
        if m.i + m.size < hi {
            law_identical_texts_match(a, m.i + m.size, hi);
        }
    }
}

// ── The measure ─────────────────────────────────────────────────────────────

/// How similar two texts are: the lengths of both, and how many characters match.
#[derive(Debug, Clone, Copy)]
pub struct Similarity {
    pub matched: usize,
    pub first: usize,
    pub second: usize,
}

/// How many characters of two texts match.
pub open spec fn common(a: Seq<char>, b: Seq<char>) -> int {
    matched(a, b, 0, a.len() as int, 0, b.len() as int)
}

/// Whether two texts with the given numbers of matching and of all characters are at
/// least as similar as `min` says. Two empty texts are identical.
pub open spec fn is_similar(matched: int, total: int, min: Ratio) -> bool {
    if total == 0 {
        min.numerator <= min.denominator
    } else {
        2 * matched * min.denominator >= min.numerator * total
    }
}

/// The similarity in whole percent. A half goes to the even neighbour; but 54.5 is
/// shown as 55 and 57.5 as 57, as the nearest binary fractions are.
pub open spec fn percent(matched: int, total: int) -> int {
    if total == 0 {
        100
    } else {
        let whole = 200 * matched / total;
        let rest = 200 * matched % total;
        if 2 * rest < total {
            whole
        } else if 2 * rest > total {
            whole + 1
        } else if whole == 54 || (whole % 2 == 1 && whole != 57) {
            whole + 1
        } else {
            whole
        }
    }
}

impl Similarity {
    /// The number of characters of both texts.
    pub open spec fn total(self) -> int {
        self.first + self.second
    }

    /// Whether the texts are at least as similar as `min` says.
    pub fn at_least(&self, min: Ratio) -> (r: bool)
        ensures
            r == is_similar(self.matched as int, self.total(), min),
    {
        let total: u128 = self.first as u128 + self.second as u128;
        if total == 0 {
            return min.numerator <= min.denominator;
        }
        let twice: u128 = 2 * (self.matched as u128);
        let numerator: u128 = min.numerator as u128;
        let denominator: u128 = min.denominator as u128;
        assert(twice * denominator <= 0x1_ffff_ffff_ffff_fffe * 0xffff_ffff) by (nonlinear_arith)
            requires
                twice <= 0x1_ffff_ffff_ffff_fffe,
                denominator <= 0xffff_ffff,
        ;
        assert(numerator * total <= 0xffff_ffff * 0x1_ffff_ffff_ffff_fffe) by (nonlinear_arith)
            requires
                total <= 0x1_ffff_ffff_ffff_fffe,
                numerator <= 0xffff_ffff,
        ;
        twice * denominator >= numerator * total
    }

    /// The similarity in whole percent, as text.
    pub fn percent_text(&self) -> (r: String)
        ensures
            r@ == dec(percent(self.matched as int, self.total()) as nat),
    {
        let total: u128 = self.first as u128 + self.second as u128;
        if total == 0 {
            return decimal(100);
        }
        let scaled: u128 = 200 * (self.matched as u128);
        let whole: u128 = scaled / total;
        let rest: u128 = scaled % total;
        assert(whole <= scaled) by (nonlinear_arith)
            requires
                whole == scaled / total,
                total > 0,
        ;
        let up: bool = if 2 * rest < total {
            false
        } else if 2 * rest > total {
            true
        } else {
            whole == 54 || (whole % 2 == 1 && whole != 57)
        };
        if up {
            decimal(whole + 1)
        } else {
            decimal(whole)
        }
    }
}

/// How similar two texts are.
pub fn sequence_matcher_ratio(a: &str, b: &str) -> (r: Similarity)
    ensures
        r.matched == common(a@, b@),
        r.first == a@.len(),
        r.second == b@.len(),
{
    let a_chars = chars_of(a);
    let b_chars = chars_of(b);
    let matcher = Matcher::new(a_chars.as_slice(), b_chars.as_slice());
    Similarity {
        matched: matcher.total_matched(),
        first: a_chars.len(),
        second: b_chars.len(),
    }
}

/// No text is more similar to another than to itself: at most all characters match.
pub proof fn law_ratio_is_at_most_one(a: Seq<char>, b: Seq<char>)
    ensures
        0 <= 2 * common(a, b) <= a.len() + b.len(),
        0 <= percent(common(a, b), (a.len() + b.len()) as int) <= 100,
{
    law_matched_is_bounded(a, b, 0, a.len() as int, 0, b.len() as int);
    let m = common(a, b);
    let total = (a.len() + b.len()) as int;
    if total > 0 {
        let whole = 200 * m / total;
        let rest = 200 * m % total;
        vstd::arithmetic::div_mod::lemma_fundamental_div_mod(200 * m, total);
        assert(0 <= whole <= 100 && (whole == 100 ==> rest == 0)) by (nonlinear_arith)
            requires
                200 * m == total * whole + rest,
                0 <= rest < total,
                0 <= 2 * m <= total,
        ;
    }
}

/// Identical texts are wholly similar: they are at least as similar as any ratio up to
/// one asks, and shown as 100 percent.
pub proof fn law_identical_texts(a: Seq<char>, min: Ratio)
    requires
        min.numerator <= min.denominator,
    ensures
        2 * common(a, a) == a.len() + a.len(),
        is_similar(common(a, a), (a.len() + a.len()) as int, min),
        percent(common(a, a), (a.len() + a.len()) as int) == 100,
{
    law_identical_texts_match(a, 0, a.len() as int);
    let total = (a.len() + a.len()) as int;
    if total > 0 {
        let m = common(a, a);
        assert(2 * m * min.denominator >= min.numerator * total) by (nonlinear_arith)
            requires
                2 * m == total,
                total > 0,
                min.numerator <= min.denominator,
        ;
        vstd::arithmetic::div_mod::lemma_fundamental_div_mod_converse(200 * m, total, 100, 0);
    }
}

/// Texts that are similar enough for a ratio are so for every smaller one.
pub proof fn law_similarity_is_monotone(matched: int, total: int, low: Ratio, high: Ratio)
    requires
        0 <= matched,
        0 <= total,
        low.denominator > 0,
        high.denominator > 0,
        low.numerator * high.denominator <= high.numerator * low.denominator,
        is_similar(matched, total, high),
    ensures
        is_similar(matched, total, low),
{
    let (ln, ld) = (low.numerator as int, low.denominator as int);
    let (hn, hd) = (high.numerator as int, high.denominator as int);
    if total == 0 {
        assert(ln <= ld) by (nonlinear_arith)
            requires
                ln * hd <= hn * ld,
                hn <= hd,
                ld > 0,
                hd > 0,
        ;
    } else {
        let x = 2 * matched;
        assert((x * ld) * hd >= (ln * total) * hd) by (nonlinear_arith)
            requires
                x * hd >= hn * total,
                ln * hd <= hn * ld,
                ld > 0,
                hd > 0,
                total > 0,
        {
            assert((x * hd) * ld >= (hn * total) * ld);
            assert((hn * ld) * total >= (ln * hd) * total);
        }
        assert(x * ld >= ln * total) by (nonlinear_arith)
            requires
                (x * ld) * hd >= (ln * total) * hd,
                hd > 0,
        ;
    }
}

// ── What matches ────────────────────────────────────────────────────────────

/// A character is popular in a text of two hundred characters or more where, one of its
/// occurrences left out, more than one in a hundred of the characters are this one.
pub proof fn law_popular_characters_are_frequent(b: Seq<char>, c: char)
    ensures
        is_popular(b, c) <==> b.len() >= 200 && 100 * (b.filter(|x: char| x == c).len() - 1)
            > b.len(),
{
    lemma_counted_by_filter(b, c);
}

proof fn lemma_counted_by_filter(b: Seq<char>, c: char)
    ensures
        count_char(b, c) == b.filter(|x: char| x == c).len(),
    decreases b.len(),
{
    reveal(Seq::filter);
    if b.len() > 0 {
        lemma_counted_by_filter(b.drop_last(), c);
    }
}

/// The run that ends with a common block of unpopular characters is at least as long.
proof fn lemma_run_covers(a: Seq<char>, b: Seq<char>, alo: int, blo: int, m: Block)
    requires
        alo <= m.i,
        blo <= m.j,
        0 <= m.size,
        is_common(a, b, m),
        b.len() < 200,
    ensures
        run(a, b, alo, blo, m.i + m.size - 1, m.j + m.size - 1) >= m.size,
    decreases m.size,
{
    if m.size > 0 {
        let less = Block { i: m.i, j: m.j, size: m.size - 1 };
        assert forall|k: int| 0 <= k < less.size implies #[trigger] a[less.i + k] == b[less.j
            + k] by {
            assert(a[m.i + k] == b[m.j + k]);
        }
        lemma_run_covers(a, b, alo, blo, less);
        assert(a[m.i + (m.size - 1)] == b[m.j + (m.size - 1)]);
    } else {
        lemma_run(a, b, alo, blo, m.i - 1, m.j - 1);
    }
}

/// Of the runs in a row that are longest the first is taken.
proof fn lemma_first_in_row(
    a: Seq<char>,
    b: Seq<char>,
    alo: int,
    blo: int,
    i: int,
    j: int,
    best: Block,
)
    requires
        alo <= i,
        blo <= j,
        0 <= best.size,
    ensures
        ({
            let now = best_in_row(a, b, alo, blo, i, j, best);
            &&& now.size >= best.size
            &&& now.size == best.size ==> now == best
            &&& forall|y: int| blo <= y < j ==> #[trigger] run(a, b, alo, blo, i, y) <= now.size
            &&& now.size > best.size ==> now.i + now.size == i + 1 && now.j + now.size <= j
                && forall|y: int|
                blo <= y < j && #[trigger] run(a, b, alo, blo, i, y) == now.size ==> now.j
                    + now.size - 1 <= y
        }),
    decreases j - blo,
{
    if j > blo {
        lemma_first_in_row(a, b, alo, blo, i, j - 1, best);
    }
}

/// Of the runs that are longest the first is taken.
proof fn lemma_first_above(a: Seq<char>, b: Seq<char>, alo: int, blo: int, bhi: int, i: int)
    requires
        alo <= i,
        blo <= bhi,
    ensures
        ({
            let now = best_above(a, b, alo, blo, bhi, i);
            forall|x: int, y: int|
                alo <= x < i && blo <= y < bhi && 0 < now.size && #[trigger] run(
                    a,
                    b,
                    alo,
                    blo,
                    x,
                    y,
                ) == now.size ==> now.i + now.size - 1 < x || (now.i + now.size - 1 == x && now.j
                    + now.size - 1 <= y)
        }),
    decreases i - alo,
{
    if i > alo {
        let above = best_above(a, b, alo, blo, bhi, i - 1);
        let now = best_above(a, b, alo, blo, bhi, i);
        lemma_best_above(a, b, alo, blo, bhi, i - 1);
        lemma_first_above(a, b, alo, blo, bhi, i - 1);
        lemma_first_in_row(a, b, alo, blo, i - 1, bhi, above);
        assert forall|x: int, y: int|
            alo <= x < i && blo <= y < bhi && 0 < now.size && #[trigger] run(a, b, alo, blo, x, y)
                == now.size implies now.i + now.size - 1 < x || (now.i + now.size - 1 == x && now.j
            + now.size - 1 <= y) by {
            if x < i - 1 {
                assert(run(a, b, alo, blo, x, y) <= above.size);
            }
        }
    }
}

/// Whether a block is the one that matches first in two ranges: none that they share is longer,
/// and of those as long none begins earlier in the first, or there as early and earlier in the
/// second.
pub open spec fn is_first_longest(
    a: Seq<char>,
    b: Seq<char>,
    alo: int,
    ahi: int,
    blo: int,
    bhi: int,
    m: Block,
) -> bool {
    &&& lies_in(m, alo, ahi, blo, bhi)
    &&& is_common(a, b, m)
    &&& forall|n: Block|
        #[trigger] lies_in(n, alo, ahi, blo, bhi) && is_common(a, b, n) ==> n.size < m.size || (
        n.size == m.size && (m.i < n.i || (m.i == n.i && m.j <= n.j)))
}

/// In texts without popular characters what matches is the longest block that the ranges share,
/// of several the first, then what matches before it and what matches behind it.
pub proof fn law_matches_are_parted_at_the_longest_block(
    a: Seq<char>,
    b: Seq<char>,
    alo: int,
    ahi: int,
    blo: int,
    bhi: int,
    m: Block,
)
    requires
        b.len() < 200,
        alo <= ahi,
        blo <= bhi,
        m.size > 0,
        is_first_longest(a, b, alo, ahi, blo, bhi, m),
    ensures
        matched(a, b, alo, ahi, blo, bhi) == m.size + matched(a, b, alo, m.i, blo, m.j) + matched(
            a,
            b,
            m.i + m.size,
            ahi,
            m.j + m.size,
            bhi,
        ),
{
    let core = best_above(a, b, alo, blo, bhi, ahi);
    lemma_best_above(a, b, alo, blo, bhi, ahi);
    lemma_first_above(a, b, alo, blo, bhi, ahi);
    lemma_run_covers(a, b, alo, blo, m);
    let x = m.i + m.size - 1;
    let y = m.j + m.size - 1;
    assert(run(a, b, alo, blo, x, y) <= core.size);
    assert(core == m);
    let left = Block { i: m.i - 1, j: m.j - 1, size: m.size + 1 };
    if m.i > alo && m.j > blo && a[m.i - 1] == b[m.j - 1] {
        assert forall|k: int| 0 <= k < left.size implies #[trigger] a[left.i + k] == b[left.j
            + k] by {
            if k > 0 {
                assert(a[m.i + (k - 1)] == b[m.j + (k - 1)]);
            }
        }
        assert(lies_in(left, alo, ahi, blo, bhi));
    }
    let right = Block { i: m.i, j: m.j, size: m.size + 1 };
    if m.i + m.size < ahi && m.j + m.size < bhi && a[m.i + m.size] == b[m.j + m.size] {
        assert forall|k: int| 0 <= k < right.size implies #[trigger] a[right.i + k] == b[right.j
            + k] by {
            if k < m.size {
                assert(a[m.i + k] == b[m.j + k]);
            }
        }
        assert(lies_in(right, alo, ahi, blo, bhi));
    }
    assert(longest(a, b, alo, ahi, blo, bhi) == m);
    law_matched_is_bounded(a, b, alo, m.i, blo, m.j);
    law_matched_is_bounded(a, b, m.i + m.size, ahi, m.j + m.size, bhi);
}

/// Nothing matches in ranges without a common character.
pub proof fn law_nothing_matches_without_a_common_character(
    a: Seq<char>,
    b: Seq<char>,
    alo: int,
    ahi: int,
    blo: int,
    bhi: int,
)
    requires
        alo <= ahi,
        blo <= bhi,
        forall|i: int, j: int|
            alo <= i < ahi && blo <= j < bhi ==> #[trigger] a[i] != #[trigger] b[j],
    ensures
        matched(a, b, alo, ahi, blo, bhi) == 0,
{
    law_longest_block(a, b, alo, ahi, blo, bhi);
    let m = longest(a, b, alo, ahi, blo, bhi);
    if m.size > 0 {
        assert(a[m.i + 0] == b[m.j + 0]);
    }
}

/// The percentage is a nearest whole number: it is off by a half at most. Where two are as near
/// the even one is taken, but for fifty-four and a half and fifty-seven and a half.
pub proof fn law_percentages_are_rounded(matched: int, total: int)
    requires
        0 <= matched,
        0 < total,
    ensures
        -total <= 2 * (percent(matched, total) * total - 200 * matched) <= total,
        2 * (percent(matched, total) * total - 200 * matched) == total || 2 * (percent(
            matched,
            total,
        ) * total - 200 * matched) == -total ==> if 400 * matched == 109 * total {
            percent(matched, total) == 55
        } else if 400 * matched == 115 * total {
            percent(matched, total) == 57
        } else {
            percent(matched, total) % 2 == 0
        },
{
    let whole = 200 * matched / total;
    let rest = 200 * matched % total;
    vstd::arithmetic::div_mod::lemma_fundamental_div_mod(200 * matched, total);
    assert((whole + 1) * total == total * whole + total && whole * total == total * whole)
        by (nonlinear_arith);
    if 2 * rest == total {
        assert(400 * matched == (2 * whole + 1) * total) by (nonlinear_arith)
            requires
                200 * matched == total * whole + rest,
                2 * rest == total,
        ;
        if 400 * matched == 109 * total {
            assert(whole == 54) by (nonlinear_arith)
                requires
                    (2 * whole + 1) * total == 109 * total,
                    total > 0,
            ;
        }
        if 400 * matched == 115 * total {
            assert(whole == 57) by (nonlinear_arith)
                requires
                    (2 * whole + 1) * total == 115 * total,
                    total > 0,
            ;
        }
        if whole == 54 {
            assert(400 * matched == 109 * total);
        }
        if whole == 57 {
            assert(400 * matched == 115 * total);
        }
    }
}

/// By default two texts are similar where three fifths of their characters match.
pub proof fn law_usual_twins_share_three_fifths(matched: int, total: int)
    requires
        total > 0,
    ensures
        is_similar(matched, total, usual_twin_similarity()) <==> 5 * (2 * matched) >= 3 * total,
{
}

} // verus!
