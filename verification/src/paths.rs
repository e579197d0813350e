//! POSIX paths as texts: their components, what one path adds to another, and the
//! order in which paths are listed.

use crate::text::{
    chars_of, join, joined_range, lemma_text_le_antisymmetric, lemma_text_le_total, lemma_text_le_transitive, same, split, split_on, text_at_most, text_le, text_of, texts,
};
use vstd::prelude::*;
use vstd::string::*;

verus! {

// ── Components ──────────────────────────────────────────────────────────────

/// Whether a path begins at the root.
pub open spec fn is_absolute(path: Seq<char>) -> bool {
    path.len() > 0 && path[0] == '/'
}

/// Whether the piece at place `k` between two slashes names something: an empty
/// piece never does, and `.` only does at the very beginning.
pub open spec fn is_name(piece: Seq<char>, k: int) -> bool {
    piece.len() > 0 && (piece != "."@ || k == 0)
}

/// The places of the pieces that name something.
pub open spec fn name_places(pieces: Seq<Seq<char>>) -> Seq<int>
    decreases pieces.len(),
{
    if pieces.len() == 0 {
        seq![]
    } else {
        let before = name_places(pieces.drop_last());
        if is_name(pieces.last(), pieces.len() - 1) {
            before.push(pieces.len() - 1)
        } else {
            before
        }
    }
}

/// The components of a path: `/` where it begins at the root, and the names in it.
pub open spec fn components(path: Seq<char>) -> Seq<Seq<char>> {
    let pieces = split(path, '/');
    let names = name_places(pieces).map_values(|k: int| pieces[k]);
    if is_absolute(path) {
        seq!["/"@] + names
    } else {
        names
    }
}

/// Every place of a name lies in the list, and later places lie further on.
proof fn lemma_name_places(pieces: Seq<Seq<char>>)
    ensures
        forall|i: int|
            0 <= i < name_places(pieces).len() ==> 0 <= #[trigger] name_places(pieces)[i]
                < pieces.len(),
        forall|i: int, j: int|
            0 <= i < j < name_places(pieces).len() ==> #[trigger] name_places(pieces)[i]
                < #[trigger] name_places(pieces)[j],
    decreases pieces.len(),
{
    if pieces.len() > 0 {
        lemma_name_places(pieces.drop_last());
        let before = name_places(pieces.drop_last());
        let now = name_places(pieces);
        assert(forall|i: int| 0 <= i < before.len() ==> now[i] == before[i]);
    }
}

fn absolute(path: &str) -> (r: bool)
    ensures
        r == is_absolute(path@),
{
    path.unicode_len() > 0 && path.get_char(0) == '/'
}

spec fn as_ints(v: Seq<usize>) -> Seq<int> {
    v.map_values(|k: usize| k as int)
}

fn places(pieces: &Vec<String>) -> (r: Vec<usize>)
    ensures
        as_ints(r@) == name_places(texts(pieces@)),
{
    let ghost all = texts(pieces@);
    let mut out: Vec<usize> = Vec::new();
    let mut i: usize = 0;
    assert(as_ints(out@) =~= name_places(all.take(0)));
    while i < pieces.len()
        invariant
            i <= pieces@.len(),
            all == texts(pieces@),
            as_ints(out@) == name_places(all.take(i as int)),
        decreases pieces@.len() - i,
    {
        assert(all.take(i + 1).drop_last() =~= all.take(i as int));
        assert(all.take(i + 1).last() == pieces@[i as int]@);
        let ghost before = as_ints(out@);
        if pieces[i].unicode_len() > 0 && (!same(pieces[i].as_str(), ".") || i == 0) {
            out.push(i);
            assert(as_ints(out@) =~= before.push(i as int));
        }
        i += 1;
    }
    assert(all.take(i as int) =~= all);
    out
}

/// The components of a path.
pub fn components_of(path: &str) -> (r: Vec<String>)
    ensures
        texts(r@) == components(path@),
{
    let pieces = split_on(path, '/');
    let at = places(&pieces);
    let ghost all = split(path@, '/');
    let ghost f = |k: int| all[k];
    let ghost names = name_places(all);
    let ghost root: Seq<Seq<char>> = if is_absolute(path@) {
        seq!["/"@]
    } else {
        seq![]
    };
    let mut out: Vec<String> = Vec::new();
    if absolute(path) {
        out.push("/".to_owned());
    }
    assert(texts(out@) =~= root + names.take(0).map_values(f));
    let mut i: usize = 0;
    while i < at.len()
        invariant
            i <= at@.len(),
            all == texts(pieces@),
            names == name_places(all),
            names == as_ints(at@),
            f == (|k: int| all[k]),
            texts(out@) == root + names.take(i as int).map_values(f),
        decreases at@.len() - i,
    {
        proof {
            lemma_name_places(all);
            assert(names[i as int] == at@[i as int]);
            assert(all[at@[i as int] as int] == pieces@[at@[i as int] as int]@);
            assert(names.take(i + 1).map_values(f) =~= names.take(i as int).map_values(f).push(
                all[at@[i as int] as int],
            ));
        }
        let ghost before = texts(out@);
        out.push(pieces[at[i]].clone());
        assert(texts(out@) =~= before.push(all[at@[i as int] as int]));
        assert(texts(out@) =~= root + names.take(i + 1).map_values(f));
        i += 1;
    }
    assert(names.take(names.len() as int) =~= names);
    assert(texts(out@) =~= components(path@)) by {
        assert(root + names.map_values(f) =~= components(path@));
    }
    out
}

/// Whether the components of `prefix` begin those of `whole`.
pub fn begins_with(whole: &Vec<String>, prefix: &Vec<String>) -> (r: bool)
    ensures
        r == texts(prefix@).is_prefix_of(texts(whole@)),
{
    if whole.len() < prefix.len() {
        return false;
    }
    let mut i: usize = 0;
    while i < prefix.len()
        invariant
            i <= prefix@.len() <= whole@.len(),
            forall|j: int| 0 <= j < i ==> texts(prefix@)[j] == texts(whole@)[j],
        decreases prefix@.len() - i,
    {
        if !same(whole[i].as_str(), prefix[i].as_str()) {
            proof {
                let t = texts(whole@).subrange(0, prefix@.len() as int);
                assert(t[i as int] == whole@[i as int]@);
                assert(texts(prefix@)[i as int] == prefix@[i as int]@);
            }
            return false;
        }
        i += 1;
    }
    assert(texts(prefix@) =~= texts(whole@).subrange(0, prefix@.len() as int));
    true
}

// ── Relative paths ──────────────────────────────────────────────────────────

/// What `path` adds to `base`, as it is written in `path` up to its last name;
/// nothing where `path` does not lie under `base`.
pub open spec fn strip_prefix(path: Seq<char>, base: Seq<char>) -> Option<Seq<char>> {
    let whole = components(path);
    let prefix = components(base);
    let pieces = split(path, '/');
    let at = name_places(pieces);
    if !prefix.is_prefix_of(whole) {
        None
    } else if prefix.len() == whole.len() {
        Some(seq![])
    } else if at.len() == 0 {
        Some("/"@)
    } else if prefix.len() == 0 {
        Some(join(pieces.subrange(0, at.last() + 1), "/"@))
    } else if is_absolute(path) {
        Some(join(pieces.subrange(at[prefix.len() - 1], at.last() + 1), "/"@))
    } else {
        Some(join(pieces.subrange(at[prefix.len() as int], at.last() + 1), "/"@))
    }
}

/// What `path` adds to `base`, if it lies under it.
pub fn stripped(path: &str, base: &str) -> (r: Option<String>)
    ensures
        match r {
            Some(t) => strip_prefix(path@, base@) == Some(t@),
            None => strip_prefix(path@, base@) is None,
        },
{
    let whole = components_of(path);
    let prefix = components_of(base);
    if !begins_with(&whole, &prefix) {
        return None;
    }
    if prefix.len() == whole.len() {
        let empty = String::new();
        assert(empty@ =~= seq![]);
        return Some(empty);
    }
    let pieces = split_on(path, '/');
    let at = places(&pieces);
    let ghost all = split(path@, '/');
    let ghost names = name_places(all);
    proof {
        lemma_name_places(all);
        assert(names == as_ints(at@));
        assert(names.len() == at@.len());
    }
    if at.len() == 0 {
        return Some("/".to_owned());
    }
    let last: usize = at[at.len() - 1];
    let count: usize = pieces.len();
    assert(names.last() == last);
    assert(last < count);
    if prefix.len() == 0 {
        return Some(joined_range(&pieces, 0, last + 1, "/"));
    }
    assert(components(path@).len() == names.len() + (if is_absolute(path@) {
        1int
    } else {
        0int
    }));
    if absolute(path) {
        let from: usize = at[prefix.len() - 1];
        assert(names[prefix@.len() - 1] == from);
        Some(joined_range(&pieces, from, last + 1, "/"))
    } else {
        let from: usize = at[prefix.len()];
        assert(names[prefix@.len() as int] == from);
        Some(joined_range(&pieces, from, last + 1, "/"))
    }
}

/// `rel` as seen from `base`: `rel` itself where it begins at the root.
pub open spec fn join_path(base: Seq<char>, rel: Seq<char>) -> Seq<char> {
    if is_absolute(rel) {
        rel
    } else if base.len() == 0 || base.last() == '/' {
        base + rel
    } else {
        base + "/"@ + rel
    }
}

/// `rel` as seen from `base`.
pub fn joined_path(base: &str, rel: &str) -> (r: String)
    ensures
        r@ == join_path(base@, rel@),
{
    if absolute(rel) {
        return rel.to_owned();
    }
    let n: usize = base.unicode_len();
    if n == 0 || base.get_char(n - 1) == '/' {
        base.to_owned().concat(rel)
    } else {
        base.to_owned().concat("/").concat(rel)
    }
}

// ── File names ──────────────────────────────────────────────────────────────

/// The name at the end of a path; none where it ends in the root, `.` or `..`.
pub open spec fn file_name(path: Seq<char>) -> Option<Seq<char>> {
    let all = components(path);
    if all.len() == 0 || all.last() == "/"@ || all.last() == "."@ || all.last() == ".."@ {
        None
    } else {
        Some(all.last())
    }
}

/// The name at the end of a path.
pub fn file_name_of(path: &str) -> (r: Option<String>)
    ensures
        match r {
            Some(t) => file_name(path@) == Some(t@),
            None => file_name(path@) is None,
        },
{
    let mut all = components_of(path);
    let ghost whole = texts(all@);
    match all.pop() {
        None => None,
        Some(name) => {
            assert(whole.last() == name@);
            if same(name.as_str(), "/") || same(name.as_str(), ".") || same(name.as_str(), "..") {
                None
            } else {
                Some(name)
            }
        },
    }
}

/// The place of the last dot in a name, or -1.
pub open spec fn last_dot(name: Seq<char>) -> int
    decreases name.len(),
{
    if name.len() == 0 {
        -1
    } else if name.last() == '.' {
        name.len() - 1
    } else {
        last_dot(name.drop_last())
    }
}

/// A file name without its extension; a dot at the very beginning begins none.
pub open spec fn stem(name: Seq<char>) -> Seq<char> {
    if last_dot(name) > 0 {
        name.take(last_dot(name))
    } else {
        name
    }
}

/// Whether a file name has the extension `py`.
pub open spec fn is_python_name(name: Seq<char>) -> bool {
    last_dot(name) > 0 && name.skip(last_dot(name) + 1) == "py"@
}

/// Whether a path names a file with the extension `py`.
pub open spec fn is_python_path(path: Seq<char>) -> bool {
    file_name(path) matches Some(name) && is_python_name(name)
}

proof fn lemma_last_dot(name: Seq<char>)
    ensures
        -1 <= last_dot(name) < name.len(),
    decreases name.len(),
{
    if name.len() > 0 {
        lemma_last_dot(name.drop_last());
    }
}

fn dot_place(chars: &Vec<char>) -> (r: Option<usize>)
    ensures
        match r {
            Some(i) => last_dot(chars@) == i && i < chars@.len(),
            None => last_dot(chars@) == -1,
        },
{
    let mut n: usize = chars.len();
    assert(chars@.take(n as int) =~= chars@);
    while n > 0
        invariant
            n <= chars@.len(),
            last_dot(chars@) == last_dot(chars@.take(n as int)),
        decreases n,
    {
        assert(chars@.take(n as int).last() == chars@[n - 1]);
        if chars[n - 1] == '.' {
            return Some(n - 1);
        }
        assert(chars@.take(n as int).drop_last() =~= chars@.take(n - 1));
        n -= 1;
    }
    None
}

/// A file name without its extension.
pub fn stem_of(name: &str) -> (r: String)
    ensures
        r@ == stem(name@),
{
    let chars = chars_of(name);
    match dot_place(&chars) {
        Some(i) => {
            if i > 0 {
                text_of(&chars, 0, i)
            } else {
                name.to_owned()
            }
        },
        None => name.to_owned(),
    }
}

/// Whether a path names a file with the extension `py`.
pub fn is_python_file(path: &str) -> (r: bool)
    ensures
        r == is_python_path(path@),
{
    match file_name_of(path) {
        None => false,
        Some(name) => {
            let chars = chars_of(name.as_str());
            let count: usize = chars.len();
            match dot_place(&chars) {
                None => false,
                Some(i) => {
                    assert(chars@.skip(i + 1) =~= chars@.subrange(i + 1, chars@.len() as int));
                    i > 0 && same(text_of(&chars, i + 1, count).as_str(), "py")
                },
            }
        },
    }
}

// ── Module names ────────────────────────────────────────────────────────────

/// The components of the directory around a path; those of the path itself where
/// it is the root or empty.
pub open spec fn parent_components(path: Seq<char>) -> Seq<Seq<char>> {
    let all = components(path);
    if all.len() == 0 || all.last() == "/"@ {
        all
    } else {
        all.drop_last()
    }
}

/// A list of components whose last one has lost its extension.
pub open spec fn without_extension(parts: Seq<Seq<char>>) -> Seq<Seq<char>> {
    if parts.len() == 0 || parts.last() == "/"@ || parts.last() == "."@ || parts.last() == ".."@ {
        parts
    } else {
        parts.drop_last().push(stem(parts.last()))
    }
}

/// The components that `path` adds to the directory around `root`, without the
/// extension of the last; none where `path` does not lie there.
pub open spec fn module_parts(root: Seq<char>, path: Seq<char>) -> Option<Seq<Seq<char>>> {
    let anchor = parent_components(root);
    let whole = components(path);
    if anchor.is_prefix_of(whole) {
        Some(without_extension(whole.skip(anchor.len() as int)))
    } else {
        None
    }
}

fn drop_extension(parts: &mut Vec<String>)
    ensures
        texts(final(parts)@) == without_extension(texts(old(parts)@)),
{
    let ghost before = texts(parts@);
    if parts.len() == 0 {
        return;
    }
    let last: usize = parts.len() - 1;
    assert(before.last() == parts@[last as int]@);
    let name = parts[last].clone();
    if same(name.as_str(), "/") || same(name.as_str(), ".") || same(name.as_str(), "..") {
        return;
    }
    parts.set(last, stem_of(name.as_str()));
    assert(texts(parts@) =~= before.drop_last().push(stem(before.last())));
}

/// The components from place `from` on.
fn components_from(all: &Vec<String>, from: usize) -> (r: Vec<String>)
    requires
        from <= all@.len(),
    ensures
        texts(r@) == texts(all@).skip(from as int),
{
    let mut out: Vec<String> = Vec::new();
    let mut i: usize = from;
    while i < all.len()
        invariant
            from <= i <= all@.len(),
            texts(out@) =~= texts(all@).subrange(from as int, i as int),
        decreases all@.len() - i,
    {
        let ghost before = texts(out@);
        out.push(all[i].clone());
        assert(texts(out@) =~= before.push(all@[i as int]@));
        i += 1;
    }
    assert(texts(all@).subrange(from as int, i as int) =~= texts(all@).skip(from as int));
    out
}

/// The components of a path without the extension of the last.
pub fn path_parts(path: &str) -> (r: Vec<String>)
    ensures
        texts(r@) == without_extension(components(path@)),
{
    let mut all = components_of(path);
    drop_extension(&mut all);
    all
}

/// The components that `path` adds to the directory around `root`, without the
/// extension of the last.
pub fn module_parts_of(root: &str, path: &str) -> (r: Option<Vec<String>>)
    ensures
        match r {
            Some(v) => module_parts(root@, path@) == Some(texts(v@)),
            None => module_parts(root@, path@) is None,
        },
{
    let mut anchor = components_of(root);
    let ghost all = texts(anchor@);
    if anchor.len() > 0 && !same(anchor[anchor.len() - 1].as_str(), "/") {
        assert(all.last() == anchor@[anchor@.len() - 1]@);
        let _dropped = anchor.pop();
        assert(texts(anchor@) =~= all.drop_last());
    }
    assert(texts(anchor@) =~= parent_components(root@));
    let whole = components_of(path);
    if !begins_with(&whole, &anchor) {
        return None;
    }
    let mut rest = components_from(&whole, anchor.len());
    drop_extension(&mut rest);
    Some(rest)
}

// ── Order ───────────────────────────────────────────────────────────────────

/// The kinds of component in the order in which they are listed: the root, `.`,
/// `..`, names.
pub open spec fn component_rank(c: Seq<char>) -> int {
    if c == "/"@ {
        0
    } else if c == "."@ {
        1
    } else if c == ".."@ {
        2
    } else {
        3
    }
}

/// The order of two components: by kind, and names by their text.
pub open spec fn component_le(a: Seq<char>, b: Seq<char>) -> bool {
    if component_rank(a) != component_rank(b) {
        component_rank(a) < component_rank(b)
    } else {
        text_le(a, b)
    }
}

/// Lists of components in lexicographic order.
pub open spec fn components_le(a: Seq<Seq<char>>, b: Seq<Seq<char>>) -> bool
    decreases a.len(),
{
    if a.len() == 0 {
        true
    } else if b.len() == 0 {
        false
    } else if a[0] != b[0] {
        component_le(a[0], b[0])
    } else {
        components_le(a.skip(1), b.skip(1))
    }
}

/// The order of two paths: component by component.
pub open spec fn path_le(a: Seq<char>, b: Seq<char>) -> bool {
    components_le(components(a), components(b))
}

proof fn lemma_component_le_total(a: Seq<char>, b: Seq<char>)
    ensures
        component_le(a, b) || component_le(b, a),
{
    lemma_text_le_total(a, b);
}

proof fn lemma_component_le_antisymmetric(a: Seq<char>, b: Seq<char>)
    requires
        component_le(a, b),
        component_le(b, a),
    ensures
        a == b,
{
    lemma_text_le_antisymmetric(a, b);
}

proof fn lemma_component_le_transitive(a: Seq<char>, b: Seq<char>, c: Seq<char>)
    requires
        component_le(a, b),
        component_le(b, c),
    ensures
        component_le(a, c),
{
    if component_rank(a) == component_rank(b) && component_rank(b) == component_rank(c) {
        lemma_text_le_transitive(a, b, c);
    }
}

proof fn lemma_components_le_total(a: Seq<Seq<char>>, b: Seq<Seq<char>>)
    ensures
        components_le(a, b) || components_le(b, a),
    decreases a.len(),
{
    if a.len() > 0 && b.len() > 0 {
        if a[0] != b[0] {
            lemma_component_le_total(a[0], b[0]);
        } else {
            lemma_components_le_total(a.skip(1), b.skip(1));
        }
    }
}

proof fn lemma_components_le_transitive(a: Seq<Seq<char>>, b: Seq<Seq<char>>, c: Seq<Seq<char>>)
    requires
        components_le(a, b),
        components_le(b, c),
    ensures
        components_le(a, c),
    decreases a.len(),
{
    if a.len() > 0 {
        if a[0] == b[0] && b[0] == c[0] {
            lemma_components_le_transitive(a.skip(1), b.skip(1), c.skip(1));
        } else if a[0] != b[0] && b[0] != c[0] {
            lemma_component_le_transitive(a[0], b[0], c[0]);
            if a[0] == c[0] {
                lemma_component_le_antisymmetric(a[0], b[0]);
            }
        }
    }
}

/// Any two paths are ordered one way or the other.
pub proof fn lemma_path_le_total(a: Seq<char>, b: Seq<char>)
    ensures
        path_le(a, b) || path_le(b, a),
{
    lemma_components_le_total(components(a), components(b));
}

/// The order of paths carries over a third.
pub proof fn lemma_path_le_transitive(a: Seq<char>, b: Seq<char>, c: Seq<char>)
    requires
        path_le(a, b),
        path_le(b, c),
    ensures
        path_le(a, c),
{
    lemma_components_le_transitive(components(a), components(b), components(c));
}

fn rank(c: &str) -> (r: u8)
    ensures
        r == component_rank(c@),
{
    if same(c, "/") {
        0
    } else if same(c, ".") {
        1
    } else if same(c, "..") {
        2
    } else {
        3
    }
}

/// The order of two paths: component by component.
pub fn path_at_most(a: &str, b: &str) -> (r: bool)
    ensures
        r == path_le(a@, b@),
{
    let x = components_of(a);
    let y = components_of(b);
    let ghost s = texts(x@);
    let ghost t = texts(y@);
    let mut i: usize = 0;
    assert(s.skip(0) =~= s);
    assert(t.skip(0) =~= t);
    loop
        invariant
            s == texts(x@),
            t == texts(y@),
            i <= x@.len(),
            i <= y@.len(),
            components_le(s, t) == components_le(s.skip(i as int), t.skip(i as int)),
            path_le(a@, b@) == components_le(s, t),
        decreases x@.len() - i,
    {
        if i == x.len() {
            return true;
        }
        if i == y.len() {
            return false;
        }
        assert(s.skip(i as int)[0] == x@[i as int]@);
        assert(t.skip(i as int)[0] == y@[i as int]@);
        if !same(x[i].as_str(), y[i].as_str()) {
            let p: u8 = rank(x[i].as_str());
            let q: u8 = rank(y[i].as_str());
            return if p != q {
                p < q
            } else {
                text_at_most(x[i].as_str(), y[i].as_str())
            };
        }
        assert(s.skip(i as int).skip(1) =~= s.skip(i + 1));
        assert(t.skip(i as int).skip(1) =~= t.skip(i + 1));
        i += 1;
    }
}

// ── Laws ────────────────────────────────────────────────────────────────────

/// A file name has the extension `py` exactly where it ends in `.py` and something stands
/// before that.
pub proof fn law_python_files_end_in_py(name: Seq<char>)
    ensures
        is_python_name(name) <==> name.len() > 3 && ".py"@.is_suffix_of(name),
{
    reveal_strlit(".py");
    reveal_strlit("py");
    lemma_behind_the_last_dot(name);
    let d = last_dot(name);
    if is_python_name(name) {
        let tail = name.skip(d + 1);
        assert(tail == "py"@);
        assert(tail.len() == 2);
        assert(tail[0] == 'p' && tail[1] == 'y');
        assert(name[d + 1] == tail[0] && name[d + 2] == tail[1]);
        assert(name.skip(name.len() - 3) =~= ".py"@);
    }
    if name.len() > 3 && ".py"@.is_suffix_of(name) {
        let n = name.len() as int;
        let tail = name.skip(n - 3);
        assert(tail =~= ".py"@);
        assert(name[n - 3] == tail[0] && name[n - 2] == tail[1] && name[n - 1] == tail[2]);
        assert(d == n - 3);
        assert(name.skip(d + 1) =~= "py"@);
    }
}

proof fn lemma_behind_the_last_dot(name: Seq<char>)
    ensures
        -1 <= last_dot(name) < name.len(),
        last_dot(name) >= 0 ==> name[last_dot(name)] == '.',
        forall|i: int| last_dot(name) < i < name.len() ==> #[trigger] name[i] != '.',
    decreases name.len(),
{
    if name.len() > 0 && name.last() != '.' {
        let rest = name.drop_last();
        lemma_behind_the_last_dot(rest);
        assert forall|i: int| last_dot(name) < i < name.len() implies #[trigger] name[i] != '.' by {
            if i < rest.len() {
                assert(rest[i] == name[i]);
            }
        }
    }
}

/// The components of a path below a directory are those of the directory and the name, where
/// the name holds no slash and is none of the special names.
pub proof fn law_components_of_a_name_below(dir: Seq<char>, name: Seq<char>)
    requires
        name.len() > 0,
        !name.contains('/'),
        name != "."@,
        dir.len() > 0,
    ensures
        components(dir + "/"@ + name) == components(dir) + seq![name],
{
    reveal_strlit("/");
    assert("/"@ =~= seq!['/']);
    let path = dir + "/"@ + name;
    crate::text::law_split_at_a_separator(dir, name, '/');
    crate::text::law_whole_without_a_separator(name, '/');
    let p = split(dir, '/');
    let q = split(path, '/');
    assert(q == p + seq![name]);
    assert(q.drop_last() =~= p);
    assert(q.last() == name);
    crate::text::law_pieces_join_back(dir, '/');
    lemma_places_in_range(p);
    let f = |k: int| p[k];
    let g = |k: int| q[k];
    assert(name_places(q) == name_places(p).push(p.len() as int));
    assert(name_places(q).map_values(g) =~= name_places(p).map_values(f).push(name)) by {
        assert forall|i: int| 0 <= i < name_places(p).len() implies g(#[trigger] name_places(p)[i])
            == f(name_places(p)[i]) by {}
    }
    assert(path[0] == dir[0]);
    assert(components(path) =~= components(dir) + seq![name]);
}

proof fn lemma_places_in_range(pieces: Seq<Seq<char>>)
    ensures
        forall|i: int|
            0 <= i < name_places(pieces).len() ==> 0 <= #[trigger] name_places(pieces)[i]
                < pieces.len(),
    decreases pieces.len(),
{
    if pieces.len() > 0 {
        let before = name_places(pieces.drop_last());
        lemma_places_in_range(pieces.drop_last());
        assert forall|i: int| 0 <= i < name_places(pieces).len() implies 0
            <= #[trigger] name_places(pieces)[i] < pieces.len() by {
            if i < before.len() {
                assert(name_places(pieces)[i] == before[i]);
            }
        }
    }
}

/// A path from the root stands for itself, wherever it is seen from; another one lies below
/// the directory that it is seen from.
pub proof fn law_paths_are_seen_from_a_directory(base: Seq<char>, rel: Seq<char>)
    ensures
        rel.len() > 0 && rel[0] == '/' ==> join_path(base, rel) == rel,
        !(rel.len() > 0 && rel[0] == '/') && base.len() > 0 && base.last() != '/' ==> join_path(
            base,
            rel,
        ) == base + "/"@ + rel,
        !(rel.len() > 0 && rel[0] == '/') && base.len() > 0 && base.last() == '/' ==> join_path(
            base,
            rel,
        ) == base + rel,
        !(rel.len() > 0 && rel[0] == '/') && base.len() == 0 ==> join_path(base, rel) == rel,
{
    if base.len() == 0 {
        assert(base + rel =~= rel);
    }
}

/// A name alone is one component, a single dot too.
pub proof fn law_names_are_components(name: Seq<char>)
    requires
        name.len() > 0,
        !name.contains('/'),
    ensures
        components(name) == seq![name],
{
    crate::text::law_whole_without_a_separator(name, '/');
    let pieces = split(name, '/');
    assert(name[0] != '/') by {
        assert(name.contains(name[0]));
    }
    assert(pieces.drop_last() =~= seq![]);
    reveal_with_fuel(name_places, 2);
    assert(name_places(pieces) =~= seq![0int]);
    assert(components(name) =~= seq![name]);
}

/// A dot behind a slash, and nothing behind a slash, add no component.
pub proof fn law_dots_are_no_components(dir: Seq<char>)
    requires
        dir.len() > 0,
    ensures
        components(dir + "/"@ + "."@) == components(dir),
        components(dir + "/"@) == components(dir),
{
    reveal_strlit("/");
    reveal_strlit(".");
    assert("/"@ =~= seq!['/']);
    let empty: Seq<char> = seq![];
    let p = split(dir, '/');
    crate::text::law_pieces_join_back(dir, '/');
    lemma_places_in_range(p);
    let dotted = dir + "/"@ + "."@;
    crate::text::law_split_at_a_separator(dir, "."@, '/');
    crate::text::law_whole_without_a_separator("."@, '/');
    let q = split(dotted, '/');
    assert(q == p + seq!["."@]);
    assert(q.drop_last() =~= p);
    assert(dotted[0] == dir[0]);
    assert(name_places(q).map_values(|k: int| q[k]) =~= name_places(p).map_values(|k: int| p[k]));
    let ended = dir + "/"@;
    assert(ended =~= dir + seq!['/'] + empty);
    crate::text::law_split_at_a_separator(dir, empty, '/');
    crate::text::law_whole_without_a_separator(empty, '/');
    let r = split(ended, '/');
    assert(r == p + seq![empty]);
    assert(r.drop_last() =~= p);
    assert(ended[0] == dir[0]);
    assert(name_places(r).map_values(|k: int| r[k]) =~= name_places(p).map_values(|k: int| p[k]));
}

/// The file name of a path is what stands behind its last slash; two dots are none.
pub proof fn law_file_names_stand_behind_the_last_slash(dir: Seq<char>, name: Seq<char>)
    requires
        dir.len() > 0,
        name.len() > 0,
        !name.contains('/'),
        name != "."@,
    ensures
        file_name(dir + "/"@ + name) == if name == ".."@ {
            None
        } else {
            Some(name)
        },
{
    reveal_strlit("/");
    law_components_of_a_name_below(dir, name);
    if name == "/"@ {
        assert(name[0] == '/');
        assert(name.contains('/'));
    }
}

/// The stem of a file name is what stands before its last dot; a name without a dot, or with
/// none but at its beginning, is its own stem.
pub proof fn law_stems_stand_before_the_last_dot(base: Seq<char>, extension: Seq<char>)
    requires
        !extension.contains('.'),
    ensures
        base.len() > 0 ==> stem(base + seq!['.'] + extension) == base,
        stem(seq!['.'] + extension) == seq!['.'] + extension,
        stem(extension) == extension,
{
    let name = base + seq!['.'] + extension;
    lemma_behind_the_last_dot(name);
    assert(name[base.len() as int] == '.');
    let d = last_dot(name);
    if d > base.len() {
        assert(extension[d - base.len() - 1] == name[d]);
        assert(extension.contains('.'));
    }
    assert(name.take(base.len() as int) =~= base);
    let hidden = seq!['.'] + extension;
    lemma_behind_the_last_dot(hidden);
    if last_dot(hidden) > 0 {
        assert(extension[last_dot(hidden) - 1] == hidden[last_dot(hidden)]);
        assert(extension.contains('.'));
    }
    lemma_behind_the_last_dot(extension);
    if last_dot(extension) >= 0 {
        assert(extension.contains(extension[last_dot(extension)]));
    }
}

/// The parts of a module begin with the name of the package's directory and end with the name of
/// the file without its extension.
pub proof fn law_modules_are_named_from_the_package(
    dir: Seq<char>,
    package: Seq<char>,
    base: Seq<char>,
    extension: Seq<char>,
)
    requires
        dir.len() > 0,
        package.len() > 0,
        !package.contains('/'),
        package != "."@,
        base.len() > 0,
        !base.contains('/'),
        !extension.contains('/'),
        !extension.contains('.'),
        extension.len() > 0,
    ensures
        module_parts(
            dir + "/"@ + package,
            dir + "/"@ + package + "/"@ + (base + seq!['.'] + extension),
        ) == Some(seq![package, base]),
{
    reveal_strlit("/");
    reveal_strlit(".");
    reveal_strlit("..");
    let root = dir + "/"@ + package;
    let name = base + seq!['.'] + extension;
    if name.contains('/') {
        let i = name.index_of('/');
        if i < base.len() {
            assert(base[i] == '/');
        } else if i > base.len() {
            assert(extension[i - base.len() - 1] == '/');
        }
    }
    assert(name.len() >= 3);
    assert(name != "."@ && name != ".."@ && name != "/"@) by {
        assert("."@.len() == 1 && ".."@.len() == 2 && "/"@.len() == 1);
    }
    if package == "/"@ {
        assert(package[0] == '/');
        assert(package.contains('/'));
    }
    law_components_of_a_name_below(dir, package);
    law_components_of_a_name_below(root, name);
    law_stems_stand_before_the_last_dot(base, extension);
    let anchor = parent_components(root);
    assert(anchor =~= components(dir));
    let whole = components(root + "/"@ + name);
    assert(whole =~= components(dir) + seq![package, name]);
    assert(whole.subrange(0, anchor.len() as int) =~= anchor);
    assert(anchor.is_prefix_of(whole));
    assert(whole.skip(anchor.len() as int) =~= seq![package, name]);
    assert(seq![package, name].drop_last().push(base) =~= seq![package, base]);
}

/// Seen from a directory, what lies in it is its name, and the directory itself is nothing; what
/// does not lie below it cannot be seen from it.
pub proof fn law_names_are_seen_from_their_directory(
    dir: Seq<char>,
    name: Seq<char>,
    other: Seq<char>,
)
    requires
        dir.len() > 0,
        name.len() > 0,
        !name.contains('/'),
        name != "."@,
    ensures
        strip_prefix(dir + "/"@ + name, dir) == Some(name),
        strip_prefix(dir, dir) == Some(Seq::<char>::empty()),
        !components(dir).is_prefix_of(components(other)) ==> strip_prefix(other, dir) is None,
{
    reveal_strlit("/");
    assert("/"@ =~= seq!['/']);
    let path = dir + "/"@ + name;
    law_components_of_a_name_below(dir, name);
    let p = split(dir, '/');
    let q = split(path, '/');
    crate::text::law_split_at_a_separator(dir, name, '/');
    crate::text::law_whole_without_a_separator(name, '/');
    assert(q == p + seq![name]);
    assert(q.drop_last() =~= p);
    let at = name_places(q);
    assert(at == name_places(p).push(p.len() as int));
    let whole = components(path);
    let prefix = components(dir);
    assert(whole.subrange(0, prefix.len() as int) =~= prefix);
    assert(prefix.subrange(0, prefix.len() as int) =~= prefix);
    assert(path[0] == dir[0]);
    lemma_some_component(dir);
    assert(q.subrange(p.len() as int, p.len() as int + 1) =~= seq![name]);
    reveal_with_fuel(join, 2);
    assert(join(seq![name], "/"@) == name);
}

proof fn lemma_some_component(dir: Seq<char>)
    requires
        dir.len() > 0,
    ensures
        components(dir).len() > 0,
{
    if !is_absolute(dir) {
        lemma_first_piece_holds_something(dir);
        lemma_first_piece_is_named(split(dir, '/'));
    }
}

proof fn lemma_first_piece_holds_something(dir: Seq<char>)
    requires
        dir.len() > 0,
        dir[0] != '/',
    ensures
        split(dir, '/').len() > 0,
        split(dir, '/')[0].len() > 0,
    decreases dir.len(),
{
    let rest = dir.drop_last();
    if rest.len() == 0 {
        reveal_with_fuel(split, 2);
    } else {
        lemma_first_piece_holds_something(rest);
    }
}

proof fn lemma_first_piece_is_named(pieces: Seq<Seq<char>>)
    requires
        pieces.len() > 0,
        pieces[0].len() > 0,
    ensures
        name_places(pieces).len() > 0,
    decreases pieces.len(),
{
    if pieces.len() > 1 {
        lemma_first_piece_is_named(pieces.drop_last());
    }
}

/// Of two paths the one with the lesser component comes first where they first differ: the root
/// before a dot, a dot before two dots, two dots before names, and names as texts. A path comes
/// before those that it begins.
pub proof fn law_paths_are_ordered_by_components(
    same: Seq<Seq<char>>,
    a: Seq<char>,
    b: Seq<char>,
    rest: Seq<Seq<char>>,
    other: Seq<Seq<char>>,
)
    ensures
        components_le(same, same + rest),
        a != b && a == "/"@ ==> components_le(same + seq![a] + rest, same + seq![b] + other),
        a == "."@ && b == ".."@ ==> components_le(same + seq![a] + rest, same + seq![b] + other)
            && !components_le(same + seq![b] + rest, same + seq![a] + other),
        (a == "."@ || a == ".."@) && b != "/"@ && b != "."@ && b != ".."@ ==> components_le(
            same + seq![a] + rest,
            same + seq![b] + other,
        ) && !components_le(same + seq![b] + rest, same + seq![a] + other),
        a != b && a != "/"@ && a != "."@ && a != ".."@ && b != "/"@ && b != "."@ && b != ".."@ ==> (
        components_le(same + seq![a] + rest, same + seq![b] + other) <==> text_le(a, b)),
    decreases same.len(),
{
    reveal_strlit("/");
    reveal_strlit(".");
    reveal_strlit("..");
    assert("."@.len() == 1 && ".."@.len() == 2 && "/"@.len() == 1);
    assert("."@[0] != "/"@[0]);
    let x = same + seq![a] + rest;
    let y = same + seq![b] + other;
    let u = same + seq![b] + rest;
    let v = same + seq![a] + other;
    if same.len() > 0 {
        law_paths_are_ordered_by_components(same.skip(1), a, b, rest, other);
        assert(x.skip(1) =~= same.skip(1) + seq![a] + rest);
        assert(y.skip(1) =~= same.skip(1) + seq![b] + other);
        assert(u.skip(1) =~= same.skip(1) + seq![b] + rest);
        assert(v.skip(1) =~= same.skip(1) + seq![a] + other);
        assert((same + rest).skip(1) =~= same.skip(1) + rest);
        assert(x[0] == same[0] && y[0] == same[0] && u[0] == same[0] && v[0] == same[0]);
    } else {
        assert(x[0] == a && y[0] == b && u[0] == b && v[0] == a);
    }
}

} // verus!
