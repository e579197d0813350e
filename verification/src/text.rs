//! Text as sequences of characters: searching, splitting, trimming, joining,
//! decimal numbers and the lexicographic order that names are sorted by.

use vstd::prelude::*;
use vstd::string::*;

verus! {

/// `String::push`: the character goes to the end of the text.
pub assume_specification[ String::push ](s: &mut String, ch: char)
    ensures
        final(s)@ == old(s)@.push(ch),
;

// ── Views ───────────────────────────────────────────────────────────────────

/// The texts that a list of strings holds.
pub open spec fn texts(v: Seq<String>) -> Seq<Seq<char>> {
    v.map_values(|s: String| s@)
}

/// The characters of `s`.
pub fn chars_of(s: &str) -> (r: Vec<char>)
    ensures
        r@ == s@,
{
    let mut out: Vec<char> = Vec::new();
    for c in it: s.chars()
        invariant
            it.seq() == s@,
            out@ == s@.take(it.index() as int),
    {
        out.push(c);
    }
    assert(s@.take(s@.len() as int) =~= s@);
    out
}

/// The text that `chars[from..to]` spells.
pub fn text_of(chars: &[char], from: usize, to: usize) -> (r: String)
    requires
        from <= to <= chars@.len(),
    ensures
        r@ == chars@.subrange(from as int, to as int),
{
    let mut out = String::new();
    let mut i: usize = from;
    while i < to
        invariant
            from <= i <= to <= chars@.len(),
            out@ == chars@.subrange(from as int, i as int),
        decreases to - i,
    {
        out.push(chars[i]);
        i += 1;
    }
    out
}

// ── Equality and searching ──────────────────────────────────────────────────

/// Whether `a` and `b` hold the same characters.
pub fn same(a: &str, b: &str) -> (r: bool)
    ensures
        r == (a@ == b@),
{
    a.to_owned() == b.to_owned()
}

/// Whether `s` begins with `prefix`.
pub fn starts_with(s: &str, prefix: &str) -> (r: bool)
    ensures
        r == prefix@.is_prefix_of(s@),
{
    let n: usize = prefix.unicode_len();
    if s.unicode_len() < n {
        return false;
    }
    same(s.substring_char(0, n), prefix)
}

/// Whether `s` ends with `suffix`.
pub fn ends_with(s: &str, suffix: &str) -> (r: bool)
    ensures
        r == suffix@.is_suffix_of(s@),
{
    let n: usize = suffix.unicode_len();
    let len: usize = s.unicode_len();
    if len < n {
        return false;
    }
    same(s.substring_char(len - n, len), suffix)
}

/// Whether `needle` stands in `s` from character `i` on.
pub open spec fn occurs_at(needle: Seq<char>, s: Seq<char>, i: int) -> bool {
    0 <= i && i + needle.len() <= s.len() && s.subrange(i, i + needle.len()) == needle
}

/// Whether `needle` stands anywhere in `s`.
pub open spec fn occurs(needle: Seq<char>, s: Seq<char>) -> bool {
    exists|i: int| occurs_at(needle, s, i)
}

/// Whether `needle` stands anywhere in `s`.
pub fn contains(s: &str, needle: &str) -> (r: bool)
    ensures
        r == occurs(needle@, s@),
{
    let chars = chars_of(s);
    let wanted = chars_of(needle);
    if chars.len() < wanted.len() {
        return false;
    }
    let total: usize = chars.len();
    let last: usize = total - wanted.len();
    let mut i: usize = 0;
    loop
        invariant
            chars@ == s@,
            wanted@ == needle@,
            total == s@.len(),
            last == total - needle@.len(),
            i <= last,
            forall|j: int| j < i ==> !occurs_at(needle@, s@, j),
        decreases last - i,
    {
        let mut k: usize = 0;
        while k < wanted.len() && chars[i + k] == wanted[k]
            invariant
                chars@ == s@,
                wanted@ == needle@,
                total == s@.len(),
                last == total - needle@.len(),
                i <= last,
                k <= needle@.len(),
                forall|j: int| 0 <= j < k ==> s@[i + j] == needle@[j],
            decreases wanted@.len() - k,
        {
            k += 1;
        }
        if k == wanted.len() {
            assert(s@.subrange(i as int, i + needle@.len()) =~= needle@);
            assert(occurs_at(needle@, s@, i as int));
            return true;
        }
        assert(!occurs_at(needle@, s@, i as int)) by {
            if occurs_at(needle@, s@, i as int) {
                assert(s@.subrange(i as int, i + needle@.len())[k as int] == s@[i + k]);
            }
        }
        if i == last {
            assert forall|j: int| !occurs_at(needle@, s@, j) by {
                if j > last {
                    assert(j + needle@.len() > s@.len());
                }
            }
            return false;
        }
        i += 1;
    }
}

/// Whether `v` holds the text `x`.
pub fn contains_text(v: &Vec<String>, x: &str) -> (r: bool)
    ensures
        r == texts(v@).contains(x@),
{
    let mut i: usize = 0;
    while i < v.len()
        invariant
            i <= v@.len(),
            forall|j: int| 0 <= j < i ==> texts(v@)[j] != x@,
        decreases v@.len() - i,
    {
        if same(v[i].as_str(), x) {
            assert(texts(v@)[i as int] == x@);
            return true;
        }
        i += 1;
    }
    false
}

/// `s` with `x` at its end, unless `s` holds `x` already.
pub open spec fn with_text(s: Seq<Seq<char>>, x: Seq<char>) -> Seq<Seq<char>> {
    if s.contains(x) {
        s
    } else {
        s.push(x)
    }
}

/// Appends `x` unless `v` holds it already.
pub fn add_text(v: &mut Vec<String>, x: &str)
    ensures
        texts(final(v)@) == with_text(texts(old(v)@), x@),
        final(v)@.len() >= old(v)@.len(),
{
    if !contains_text(v, x) {
        v.push(x.to_owned());
        assert(texts(v@) =~= texts(old(v)@).push(x@));
    }
}

/// The distinct texts of `s`, each at its first place.
pub open spec fn distinct_texts(s: Seq<Seq<char>>) -> Seq<Seq<char>>
    decreases s.len(),
{
    if s.len() == 0 {
        seq![]
    } else {
        with_text(distinct_texts(s.drop_last()), s.last())
    }
}

/// Keeping the distinct texts keeps exactly the texts that there are, each once.
pub proof fn lemma_distinct_texts(s: Seq<Seq<char>>)
    ensures
        distinct_texts(s).no_duplicates(),
        forall|x: Seq<char>| distinct_texts(s).contains(x) <==> s.contains(x),
    decreases s.len(),
{
    if s.len() > 0 {
        let rest = s.drop_last();
        lemma_distinct_texts(rest);
        let kept = distinct_texts(rest);
        assert(s =~= rest.push(s.last()));
        broadcast use vstd::seq_lib::lemma_seq_contains_after_push;
        assert forall|x: Seq<char>| distinct_texts(s).contains(x) <==> s.contains(x) by {
            assert(rest.push(s.last()).contains(x) <==> rest.contains(x) || x == s.last());
            assert(kept.push(s.last()).contains(x) <==> kept.contains(x) || x == s.last());
        }
    }
}

// ── Splitting ───────────────────────────────────────────────────────────────

/// The pieces of `s` between the separators `sep`; there is always one more
/// piece than there are separators.
pub open spec fn split(s: Seq<char>, sep: char) -> Seq<Seq<char>>
    decreases s.len(),
{
    if s.len() == 0 {
        seq![seq![]]
    } else {
        let before = split(s.drop_last(), sep);
        if s.last() == sep {
            before.push(seq![])
        } else {
            before.drop_last().push(before.last().push(s.last()))
        }
    }
}

/// The pieces of `s` between the separators `sep`.
pub fn split_on(s: &str, sep: char) -> (r: Vec<String>)
    ensures
        texts(r@) == split(s@, sep),
        r@.len() >= 1,
{
    let chars = chars_of(s);
    let mut done: Vec<String> = Vec::new();
    let mut piece = String::new();
    let mut i: usize = 0;
    assert(texts(done@).push(piece@) =~= split(s@.take(0), sep));
    while i < chars.len()
        invariant
            chars@ == s@,
            i <= s@.len(),
            texts(done@).push(piece@) == split(s@.take(i as int), sep),
        decreases s@.len() - i,
    {
        let c = chars[i];
        let ghost next = s@.take(i + 1);
        let ghost before = texts(done@).push(piece@);
        assert(next.drop_last() =~= s@.take(i as int));
        assert(before.drop_last() =~= texts(done@));
        if c == sep {
            done.push(piece);
            piece = String::new();
            assert(texts(done@) =~= before);
            assert(piece@ =~= seq![]);
        } else {
            piece.push(c);
        }
        assert(texts(done@).push(piece@) =~= split(next, sep));
        i += 1;
    }
    assert(s@.take(s@.len() as int) =~= s@);
    let ghost before = texts(done@);
    done.push(piece);
    assert(texts(done@) =~= before.push(piece@));
    done
}

/// A line without the carriage return that its line end began with.
pub open spec fn without_cr(line: Seq<char>) -> Seq<char> {
    if line.len() > 0 && line.last() == '\r' {
        line.drop_last()
    } else {
        line
    }
}

/// The lines of `s`: the pieces between line feeds, each without the carriage
/// return before its line feed; an empty piece after the last line feed is no
/// line.
pub open spec fn lines(s: Seq<char>) -> Seq<Seq<char>> {
    let pieces = split(s, '\n');
    let ended = pieces.drop_last().map_values(|l: Seq<char>| without_cr(l));
    if pieces.last().len() == 0 {
        ended
    } else {
        ended.push(pieces.last())
    }
}

fn drop_cr(line: &str) -> (r: String)
    ensures
        r@ == without_cr(line@),
{
    let n: usize = line.unicode_len();
    if n > 0 && line.get_char(n - 1) == '\r' {
        line.substring_char(0, n - 1).to_owned()
    } else {
        line.to_owned()
    }
}

/// The lines of `s`.
pub fn lines_of(s: &str) -> (r: Vec<String>)
    ensures
        texts(r@) == lines(s@),
{
    let pieces = split_on(s, '\n');
    let ghost all = split(s@, '\n');
    let ghost f = |l: Seq<char>| without_cr(l);
    let last: usize = pieces.len() - 1;
    let mut out: Vec<String> = Vec::new();
    let mut i: usize = 0;
    while i < last
        invariant
            last == pieces@.len() - 1,
            i <= last,
            texts(pieces@) == all,
            out@.len() == i,
            forall|j: int| 0 <= j < i ==> #[trigger] out@[j]@ == without_cr(all[j]),
        decreases last - i,
    {
        assert(texts(pieces@)[i as int] == pieces@[i as int]@);
        out.push(drop_cr(pieces[i].as_str()));
        i += 1;
    }
    assert(texts(out@) =~= all.drop_last().map_values(f));
    assert(all.last() == pieces@[last as int]@);
    if pieces[last].unicode_len() > 0 {
        let ghost before = texts(out@);
        out.push(pieces[last].clone());
        assert(texts(out@) =~= before.push(all.last()));
    }
    out
}

// ── Trimming ────────────────────────────────────────────────────────────────

/// The characters with the Unicode property `White_Space`.
pub open spec fn is_space(c: char) -> bool {
    ||| '\u{9}' <= c <= '\u{d}'
    ||| c == ' '
    ||| c == '\u{85}'
    ||| c == '\u{a0}'
    ||| c == '\u{1680}'
    ||| '\u{2000}' <= c <= '\u{200a}'
    ||| c == '\u{2028}'
    ||| c == '\u{2029}'
    ||| c == '\u{202f}'
    ||| c == '\u{205f}'
    ||| c == '\u{3000}'
}

fn space(c: char) -> (r: bool)
    ensures
        r == is_space(c),
{
    ('\u{9}' <= c && c <= '\u{d}') || c == ' ' || c == '\u{85}' || c == '\u{a0}' || c == '\u{1680}'
        || ('\u{2000}' <= c && c <= '\u{200a}') || c == '\u{2028}' || c == '\u{2029}' || c
        == '\u{202f}' || c == '\u{205f}' || c == '\u{3000}'
}

/// `s` without the white space at its beginning.
pub open spec fn trim_front(s: Seq<char>) -> Seq<char>
    decreases s.len(),
{
    if s.len() > 0 && is_space(s[0]) {
        trim_front(s.skip(1))
    } else {
        s
    }
}

/// `s` without the white space at its end.
pub open spec fn trim_back(s: Seq<char>) -> Seq<char>
    decreases s.len(),
{
    if s.len() > 0 && is_space(s.last()) {
        trim_back(s.drop_last())
    } else {
        s
    }
}

/// `s` without the white space at either end.
pub open spec fn trim(s: Seq<char>) -> Seq<char> {
    trim_front(trim_back(s))
}

/// `s` without the white space at either end.
pub fn trimmed(s: &str) -> (r: String)
    ensures
        r@ == trim(s@),
{
    let chars = chars_of(s);
    let mut to: usize = chars.len();
    assert(s@.take(to as int) =~= s@);
    while to > 0 && space(chars[to - 1])
        invariant
            chars@ == s@,
            to <= s@.len(),
            trim_back(s@) == trim_back(s@.take(to as int)),
        decreases to,
    {
        assert(s@.take(to as int).drop_last() =~= s@.take(to - 1));
        to -= 1;
    }
    let ghost back = s@.take(to as int);
    assert(trim_back(s@) == back);
    let mut from: usize = 0;
    assert(back.skip(0) =~= back);
    while from < to && space(chars[from])
        invariant
            chars@ == s@,
            from <= to <= s@.len(),
            back == s@.take(to as int),
            trim_front(back) == trim_front(back.skip(from as int)),
        decreases to - from,
    {
        assert(back.skip(from as int).skip(1) =~= back.skip(from + 1));
        from += 1;
    }
    assert(back.skip(from as int) =~= s@.subrange(from as int, to as int));
    text_of(&chars, from, to)
}

// ── Joining ─────────────────────────────────────────────────────────────────

/// The texts of `parts` in order, `sep` between each two.
pub open spec fn join(parts: Seq<Seq<char>>, sep: Seq<char>) -> Seq<char>
    decreases parts.len(),
{
    if parts.len() == 0 {
        seq![]
    } else if parts.len() == 1 {
        parts[0]
    } else {
        join(parts.drop_last(), sep) + sep + parts.last()
    }
}

/// The texts of `parts[from..to]` in order, `sep` between each two.
pub fn joined_range(parts: &Vec<String>, from: usize, to: usize, sep: &str) -> (r: String)
    requires
        from <= to <= parts@.len(),
    ensures
        r@ == join(texts(parts@).subrange(from as int, to as int), sep@),
{
    let ghost all = texts(parts@);
    if from == to {
        assert(all.subrange(from as int, to as int).len() == 0);
        let empty = String::new();
        assert(empty@ =~= seq![]);
        return empty;
    }
    let mut out = parts[from].clone();
    let mut i: usize = from + 1;
    assert(all.subrange(from as int, from + 1)[0] == parts@[from as int]@);
    while i < to
        invariant
            from < i <= to <= parts@.len(),
            all == texts(parts@),
            out@ == join(all.subrange(from as int, i as int), sep@),
        decreases to - i,
    {
        let ghost next = all.subrange(from as int, i + 1);
        assert(next.drop_last() =~= all.subrange(from as int, i as int));
        assert(next.last() == parts@[i as int]@);
        out = out.concat(sep).concat(parts[i].as_str());
        i += 1;
    }
    out
}

/// The texts of `parts` in order, `sep` between each two.
pub fn joined(parts: &Vec<String>, sep: &str) -> (r: String)
    ensures
        r@ == join(texts(parts@), sep@),
{
    assert(texts(parts@).subrange(0, parts@.len() as int) =~= texts(parts@));
    joined_range(parts, 0, parts.len(), sep)
}

// ── Columns ─────────────────────────────────────────────────────────────────

/// A character `n` times.
pub open spec fn repeat(c: char, n: nat) -> Seq<char> {
    Seq::new(n, |i: int| c)
}

/// A character `n` times.
pub fn repeated(c: char, n: usize) -> (r: String)
    ensures
        r@ == repeat(c, n as nat),
{
    let mut out = String::new();
    let mut i: usize = 0;
    assert(out@ =~= repeat(c, 0));
    while i < n
        invariant
            i <= n,
            out@ == repeat(c, i as nat),
        decreases n - i,
    {
        out.push(c);
        i += 1;
        assert(out@ =~= repeat(c, i as nat));
    }
    out
}

/// The blanks that a text lacks to a width.
pub open spec fn blanks(s: Seq<char>, width: nat) -> Seq<char> {
    if s.len() < width {
        repeat(' ', (width - s.len()) as nat)
    } else {
        seq![]
    }
}

fn missing_blanks(s: &str, width: usize) -> (r: String)
    ensures
        r@ == blanks(s@, width as nat),
{
    let n: usize = s.unicode_len();
    if n < width {
        repeated(' ', width - n)
    } else {
        let empty = String::new();
        assert(empty@ =~= seq![]);
        empty
    }
}

/// A text at the left of a column.
pub open spec fn at_left(s: Seq<char>, width: nat) -> Seq<char> {
    s + blanks(s, width)
}

/// A text at the right of a column.
pub open spec fn at_right(s: Seq<char>, width: nat) -> Seq<char> {
    blanks(s, width) + s
}

/// A text at the left of a column.
pub fn left_aligned(s: &str, width: usize) -> (r: String)
    ensures
        r@ == at_left(s@, width as nat),
{
    s.to_owned().concat(missing_blanks(s, width).as_str())
}

/// A text at the right of a column.
pub fn right_aligned(s: &str, width: usize) -> (r: String)
    ensures
        r@ == at_right(s@, width as nat),
{
    missing_blanks(s, width).concat(s)
}

// ── Numbers ─────────────────────────────────────────────────────────────────

/// The decimal digit that stands for `n`.
pub open spec fn digit(n: nat) -> char {
    if n == 0 {
        '0'
    } else if n == 1 {
        '1'
    } else if n == 2 {
        '2'
    } else if n == 3 {
        '3'
    } else if n == 4 {
        '4'
    } else if n == 5 {
        '5'
    } else if n == 6 {
        '6'
    } else if n == 7 {
        '7'
    } else if n == 8 {
        '8'
    } else {
        '9'
    }
}

/// `n` in decimal.
pub open spec fn dec(n: nat) -> Seq<char>
    decreases n,
{
    if n < 10 {
        seq![digit(n)]
    } else {
        dec(n / 10).push(digit(n % 10))
    }
}

fn digit_char(n: u128) -> (r: char)
    requires
        n < 10,
    ensures
        r == digit(n as nat),
{
    if n == 0 {
        '0'
    } else if n == 1 {
        '1'
    } else if n == 2 {
        '2'
    } else if n == 3 {
        '3'
    } else if n == 4 {
        '4'
    } else if n == 5 {
        '5'
    } else if n == 6 {
        '6'
    } else if n == 7 {
        '7'
    } else if n == 8 {
        '8'
    } else {
        '9'
    }
}

/// `n` in decimal.
pub fn decimal(n: u128) -> (r: String)
    ensures
        r@ == dec(n as nat),
    decreases n,
{
    if n < 10 {
        let mut out = String::new();
        out.push(digit_char(n));
        assert(out@ =~= seq![digit(n as nat)]);
        out
    } else {
        let mut out = decimal(n / 10);
        out.push(digit_char(n % 10));
        out
    }
}

/// `n` in decimal.
pub fn count_text(n: usize) -> (r: String)
    ensures
        r@ == dec(n as nat),
{
    decimal(n as u128)
}

// ── Order ───────────────────────────────────────────────────────────────────

/// Lexicographic order by code point: `a` stands before `b`, or they are equal.
pub open spec fn text_le(a: Seq<char>, b: Seq<char>) -> bool
    decreases a.len(),
{
    if a.len() == 0 {
        true
    } else if b.len() == 0 {
        false
    } else if a[0] != b[0] {
        a[0] < b[0]
    } else {
        text_le(a.skip(1), b.skip(1))
    }
}

/// Lexicographic order by code point.
pub fn text_at_most(a: &str, b: &str) -> (r: bool)
    ensures
        r == text_le(a@, b@),
{
    let x = chars_of(a);
    let y = chars_of(b);
    let mut i: usize = 0;
    assert(a@.skip(0) =~= a@);
    assert(b@.skip(0) =~= b@);
    loop
        invariant
            x@ == a@,
            y@ == b@,
            i <= a@.len(),
            i <= b@.len(),
            text_le(a@, b@) == text_le(a@.skip(i as int), b@.skip(i as int)),
        decreases a@.len() - i,
    {
        if i == x.len() {
            return true;
        }
        if i == y.len() {
            return false;
        }
        assert(a@.skip(i as int)[0] == a@[i as int]);
        assert(b@.skip(i as int)[0] == b@[i as int]);
        if x[i] != y[i] {
            return x[i] < y[i];
        }
        assert(a@.skip(i as int).skip(1) =~= a@.skip(i + 1));
        assert(b@.skip(i as int).skip(1) =~= b@.skip(i + 1));
        i += 1;
    }
}

/// The order of texts is reflexive.
pub proof fn lemma_text_le_reflexive(a: Seq<char>)
    ensures
        text_le(a, a),
    decreases a.len(),
{
    if a.len() > 0 {
        lemma_text_le_reflexive(a.skip(1));
    }
}

/// Any two texts are ordered one way or the other.
pub proof fn lemma_text_le_total(a: Seq<char>, b: Seq<char>)
    ensures
        text_le(a, b) || text_le(b, a),
    decreases a.len(),
{
    if a.len() > 0 && b.len() > 0 && a[0] == b[0] {
        lemma_text_le_total(a.skip(1), b.skip(1));
    }
}

/// Texts that are ordered both ways are equal.
pub proof fn lemma_text_le_antisymmetric(a: Seq<char>, b: Seq<char>)
    requires
        text_le(a, b),
        text_le(b, a),
    ensures
        a == b,
    decreases a.len(),
{
    if a.len() > 0 && b.len() > 0 && a[0] == b[0] {
        lemma_text_le_antisymmetric(a.skip(1), b.skip(1));
        assert(a =~= seq![a[0]] + a.skip(1));
        assert(b =~= seq![b[0]] + b.skip(1));
    } else {
        assert(a =~= b);
    }
}

/// The order of texts is transitive.
pub proof fn lemma_text_le_transitive(a: Seq<char>, b: Seq<char>, c: Seq<char>)
    requires
        text_le(a, b),
        text_le(b, c),
    ensures
        text_le(a, c),
    decreases a.len(),
{
    if a.len() > 0 && b.len() > 0 && c.len() > 0 && a[0] == b[0] && b[0] == c[0] {
        lemma_text_le_transitive(a.skip(1), b.skip(1), c.skip(1));
    }
}

// ── Laws ────────────────────────────────────────────────────────────────────

/// The pieces of a text, with the separator between each two, are the text again, and none
/// of them holds the separator.
pub proof fn law_pieces_join_back(s: Seq<char>, sep: char)
    ensures
        split(s, sep).len() >= 1,
        join(split(s, sep), seq![sep]) == s,
        forall|i: int| 0 <= i < split(s, sep).len() ==> !(#[trigger] split(s, sep)[i]).contains(sep),
    decreases s.len(),
{
    let pieces = split(s, sep);
    if s.len() == 0 {
        assert(pieces[0] =~= s);
    } else {
        let rest = s.drop_last();
        let before = split(rest, sep);
        law_pieces_join_back(rest, sep);
        if s.last() == sep {
            assert(pieces.drop_last() =~= before);
            assert(join(pieces, seq![sep]) =~= rest + seq![sep] + seq![]);
            assert(s =~= rest + seq![sep] + seq![]);
        } else {
            let last = before.last().push(s.last());
            assert(pieces.drop_last() =~= before.drop_last());
            if before.len() == 1 {
                assert(join(pieces, seq![sep]) == last);
                assert(s =~= last);
            } else {
                assert(join(pieces, seq![sep]) == join(before.drop_last(), seq![sep]) + seq![sep]
                    + last);
                assert(s =~= rest.push(s.last()));
                assert(join(before.drop_last(), seq![sep]) + seq![sep] + last =~= (join(
                    before.drop_last(),
                    seq![sep],
                ) + seq![sep] + before.last()).push(s.last()));
            }
            assert forall|i: int| 0 <= i < pieces.len() implies !(#[trigger] pieces[i]).contains(
                sep,
            ) by {
                if i < before.len() - 1 {
                    assert(pieces[i] == before[i]);
                } else {
                    assert(!before[before.len() - 1].contains(sep));
                    if last.contains(sep) {
                        let k = last.index_of(sep);
                        assert(before.last()[k] == sep);
                    }
                }
            }
        }
    }
}

/// The pieces of two texts with the separator between them are those of the first and those
/// of the second.
pub proof fn law_split_at_a_separator(a: Seq<char>, b: Seq<char>, sep: char)
    ensures
        split(a + seq![sep] + b, sep) == split(a, sep) + split(b, sep),
    decreases b.len(),
{
    let whole = a + seq![sep] + b;
    if b.len() == 0 {
        assert(whole.drop_last() =~= a);
        assert(split(a, sep) + split(b, sep) =~= split(a, sep).push(seq![]));
    } else {
        law_split_at_a_separator(a, b.drop_last(), sep);
        law_pieces_join_back(b.drop_last(), sep);
        assert(whole.drop_last() =~= a + seq![sep] + b.drop_last());
        assert(whole.last() == b.last());
        let p = split(a, sep);
        let q = split(b.drop_last(), sep);
        if b.last() == sep {
            assert((p + q).push(seq![]) =~= p + q.push(seq![]));
        } else {
            assert((p + q).last() == q.last());
            assert((p + q).drop_last() =~= p + q.drop_last());
            assert((p + q.drop_last()).push(q.last().push(b.last())) =~= p + q.drop_last().push(
                q.last().push(b.last()),
            ));
        }
    }
}

/// A text without the separator is its own only piece.
pub proof fn law_whole_without_a_separator(s: Seq<char>, sep: char)
    requires
        !s.contains(sep),
    ensures
        split(s, sep) == seq![s],
    decreases s.len(),
{
    if s.len() == 0 {
        assert(s =~= seq![]);
    } else {
        let rest = s.drop_last();
        assert(s[s.len() - 1] == s.last());
        if rest.contains(sep) {
            let k = rest.index_of(sep);
            assert(s[k] == sep);
        }
        law_whole_without_a_separator(rest, sep);
        assert(split(s, sep) =~= seq![s]) by {
            assert(rest.push(s.last()) =~= s);
            assert(seq![rest].drop_last() =~= Seq::<Seq<char>>::empty());
        }
    }
}

/// What trimming takes away is white space, and neither end of what it leaves is.
pub proof fn law_trimming_takes_the_space_around(s: Seq<char>) -> (r: (Seq<char>, Seq<char>))
    ensures
        s == r.0 + trim(s) + r.1,
        forall|i: int| 0 <= i < r.0.len() ==> is_space(#[trigger] r.0[i]),
        forall|i: int| 0 <= i < r.1.len() ==> is_space(#[trigger] r.1[i]),
        trim(s).len() > 0 ==> !is_space(trim(s)[0]) && !is_space(trim(s).last()),
{
    let t = trim_back(s);
    lemma_trim_back(s);
    lemma_trim_front(t);
    let front = t.take(t.len() - trim(s).len());
    let back = s.skip(t.len() as int);
    assert(s =~= t + back);
    assert(t =~= front + trim(s));
    assert(s =~= front + trim(s) + back);
    if trim(s).len() > 0 {
        assert(trim(s).last() == t.last());
    }
    (front, back)
}

proof fn lemma_trim_back(s: Seq<char>)
    ensures
        trim_back(s).is_prefix_of(s),
        forall|i: int| trim_back(s).len() <= i < s.len() ==> is_space(#[trigger] s[i]),
        trim_back(s).len() > 0 ==> !is_space(trim_back(s).last()),
    decreases s.len(),
{
    if s.len() > 0 && is_space(s.last()) {
        lemma_trim_back(s.drop_last());
        assert forall|i: int| trim_back(s).len() <= i < s.len() implies is_space(
            #[trigger] s[i],
        ) by {
            if i < s.len() - 1 {
                assert(s.drop_last()[i] == s[i]);
            }
        }
    }
}

proof fn lemma_trim_front(s: Seq<char>)
    ensures
        trim_front(s).is_suffix_of(s),
        forall|i: int| 0 <= i < s.len() - trim_front(s).len() ==> is_space(#[trigger] s[i]),
        trim_front(s).len() > 0 ==> !is_space(trim_front(s)[0]),
    decreases s.len(),
{
    if s.len() > 0 && is_space(s[0]) {
        let rest = s.skip(1);
        lemma_trim_front(rest);
        assert forall|i: int| 0 <= i < s.len() - trim_front(s).len() implies is_space(
            #[trigger] s[i],
        ) by {
            if i > 0 {
                assert(rest[i - 1] == s[i]);
            }
        }
        assert(trim_front(s) =~= s.skip(s.len() - trim_front(s).len()));
    }
}

/// A number in decimal: one digit for a number below ten, and a further digit for each
/// further place. The digits stand one behind the other in the order of characters.
pub proof fn law_decimals_have_places(n: nat)
    ensures
        n < 10 ==> dec(n).len() == 1,
        n >= 10 ==> dec(n).drop_last() == dec(n / 10),
        dec(n).len() > 0 && (dec(n).last() as int) == ('0' as int) + n % 10,
{
    if n >= 10 {
        assert(dec(n).drop_last() =~= dec(n / 10));
    }
}

/// Of two texts that first differ in a character, the one with the lesser character comes
/// first; a text comes before those that it begins.
pub proof fn law_texts_are_ordered_by_characters(
    same: Seq<char>,
    a: char,
    b: char,
    rest: Seq<char>,
    other: Seq<char>,
)
    requires
        a < b,
    ensures
        text_le(same + seq![a] + rest, same + seq![b] + other),
        !text_le(same + seq![b] + other, same + seq![a] + rest),
        text_le(same, same + other),
    decreases same.len(),
{
    if same.len() > 0 {
        law_texts_are_ordered_by_characters(same.skip(1), a, b, rest, other);
        assert((same + seq![a] + rest).skip(1) =~= same.skip(1) + seq![a] + rest);
        assert((same + seq![b] + other).skip(1) =~= same.skip(1) + seq![b] + other);
        assert((same + other).skip(1) =~= same.skip(1) + other);
    }
}

/// How the lines of a text are told apart: each line feed ends one, without the carriage
/// return before it, and what follows the last is one where it is not empty.
pub proof fn law_line_feeds_end_lines(line: Seq<char>, rest: Seq<char>)
    requires
        !line.contains('\n'),
    ensures
        lines(line + seq!['\n'] + rest) == seq![
            if line.len() > 0 && line.last() == '\r' {
                line.drop_last()
            } else {
                line
            },
        ] + lines(rest),
        lines(line) == if line.len() == 0 {
            Seq::<Seq<char>>::empty()
        } else {
            seq![line]
        },
{
    let f = |l: Seq<char>| without_cr(l);
    law_split_at_a_separator(line, rest, '\n');
    law_whole_without_a_separator(line, '\n');
    law_pieces_join_back(rest, '\n');
    let q = split(rest, '\n');
    let p = seq![line] + q;
    assert(p.last() == q.last());
    assert(p.drop_last() =~= seq![line] + q.drop_last());
    assert(p.drop_last().map_values(f) =~= seq![without_cr(line)] + q.drop_last().map_values(f));
    assert(lines(line + seq!['\n'] + rest) =~= seq![without_cr(line)] + lines(rest));
    assert(seq![line].drop_last() =~= Seq::<Seq<char>>::empty());
    assert(Seq::<Seq<char>>::empty().map_values(f) =~= Seq::<Seq<char>>::empty());
    assert(lines(line) =~= if line.len() == 0 {
        Seq::<Seq<char>>::empty()
    } else {
        seq![line]
    });
}

/// A text stands in another exactly where the other goes on with it from some place.
pub proof fn law_occurrences_start_somewhere(needle: Seq<char>, s: Seq<char>)
    ensures
        occurs(needle, s) <==> exists|from: int|
            0 <= from <= s.len() && needle.is_prefix_of(#[trigger] s.skip(from)),
{
    if occurs(needle, s) {
        let i = choose|i: int| occurs_at(needle, s, i);
        assert(s.skip(i).subrange(0, needle.len() as int) =~= s.subrange(i, i + needle.len()));
        assert(needle.is_prefix_of(s.skip(i)));
    }
    if exists|from: int| 0 <= from <= s.len() && needle.is_prefix_of(#[trigger] s.skip(from)) {
        let i = choose|from: int|
            0 <= from <= s.len() && needle.is_prefix_of(#[trigger] s.skip(from));
        assert(s.skip(i).subrange(0, needle.len() as int) =~= s.subrange(i, i + needle.len()));
        assert(occurs_at(needle, s, i));
    }
}

/// Different numbers have different texts in decimal.
pub proof fn law_decimals_tell_numbers_apart(m: nat, n: nat)
    ensures
        dec(m) == dec(n) <==> m == n,
    decreases m,
{
    law_decimals_have_places(m);
    law_decimals_have_places(n);
    law_decimals_have_places(m / 10);
    law_decimals_have_places(n / 10);
    if dec(m) == dec(n) {
        if m >= 10 && n >= 10 {
            law_decimals_tell_numbers_apart(m / 10, n / 10);
        }
    }
}

/// A text set to the left stands before the blanks that fill up the width; one set to the right
/// stands behind them. A text that is wider stays as it is.
pub proof fn law_texts_are_set_within_a_width(s: Seq<char>, width: nat)
    ensures
        at_left(s, width).len() == if s.len() < width {
            width
        } else {
            s.len()
        },
        at_right(s, width).len() == at_left(s, width).len(),
        at_left(s, width).take(s.len() as int) == s,
        forall|i: int|
            s.len() <= i < at_left(s, width).len() ==> #[trigger] at_left(s, width)[i] == ' ',
        at_right(s, width).skip(at_right(s, width).len() - s.len()) == s,
        forall|i: int|
            0 <= i < at_right(s, width).len() - s.len() ==> #[trigger] at_right(s, width)[i] == ' ',
{
    assert(at_left(s, width).take(s.len() as int) =~= s);
    assert(at_right(s, width).skip(at_right(s, width).len() - s.len()) =~= s);
}

/// Of the characters of ASCII the tab, the line feed and the three behind it, and the blank are
/// white space.
pub proof fn law_blanks_are_white_space(c: char)
    requires
        (c as int) < 128,
    ensures
        is_space(c) <==> c == ' ' || 9 <= (c as int) <= 13,
{
}

/// A text with one more put behind it where it is not there yet: each text once, in the order in
/// which they come first.
pub proof fn law_texts_are_listed_once(s: Seq<Seq<char>>, x: Seq<char>)
    ensures
        distinct_texts(s.push(x)) == if s.contains(x) {
            distinct_texts(s)
        } else {
            distinct_texts(s).push(x)
        },
{
    lemma_distinct_texts(s);
    assert(s.push(x).drop_last() =~= s);
}

} // verus!
