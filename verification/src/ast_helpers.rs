//! Lines, functions and the measures of functions.

use crate::structure::{block_shape, law_texts_tell_structures_apart, write_block, written};
use crate::syntax::{end_of, identifier_text, name_of, range_end, range_start, start_of};
use crate::text::starts_with;
use crate::walk::{
    outset, seen, statements, stmt_parts, visits, visits_inside, visits_of, walk_stmt, walk_stmts,
    Coverage, KeywordValues, Node, Seen, Visit,
};
use rustpython_ast::text_size::TextRange;
use rustpython_ast::{Arguments, Constant, Expr, Stmt};
use vstd::pervasive::unreached;
use vstd::prelude::*;
use vstd::string::*;
use vstd::utf8::encode_utf8;

verus! {

// ── Lines ───────────────────────────────────────────────────────────────────

/// The byte offsets at which the lines of a source begin: 0, and one behind each
/// line feed.
pub open spec fn line_starts(bytes: Seq<u8>) -> Seq<nat>
    decreases bytes.len(),
{
    if bytes.len() == 0 {
        seq![0nat]
    } else if bytes.last() == 10 {
        line_starts(bytes.drop_last()).push(bytes.len())
    } else {
        line_starts(bytes.drop_last())
    }
}

/// How many lines begin at or before a byte offset.
pub open spec fn line_in(starts: Seq<nat>, offset: nat) -> nat
    decreases starts.len(),
{
    if starts.len() == 0 {
        0
    } else {
        line_in(starts.drop_last(), offset) + if starts.last() <= offset {
            1nat
        } else {
            0nat
        }
    }
}

/// Where the lines of a source begin.
pub struct LineIndex {
    line_starts: Vec<usize>,
}

spec fn as_nats(v: Seq<usize>) -> Seq<nat> {
    v.map_values(|n: usize| n as nat)
}

impl LineIndex {
    pub closed spec fn view(self) -> Seq<nat> {
        as_nats(self.line_starts@)
    }

    #[verifier::type_invariant]
    spec fn ordered(self) -> bool {
        &&& self.line_starts@.len() > 0
        &&& self.line_starts@[0] == 0
        &&& forall|i: int, j: int|
            0 <= i < j < self.line_starts@.len() ==> self.line_starts@[i] < self.line_starts@[j]
    }

    /// Finds where the lines of `source` begin.
    pub fn new(source: &str) -> (r: Self)
        ensures
            r@ == line_starts(encode_utf8(source@)),
    {
        let bytes = source.as_bytes();
        let count: usize = bytes.len();
        let mut starts: Vec<usize> = Vec::new();
        starts.push(0);
        let mut i: usize = 0;
        assert(as_nats(starts@) =~= line_starts(bytes@.take(0)));
        while i < count
            invariant
                count == bytes@.len(),
                i <= count,
                as_nats(starts@) == line_starts(bytes@.take(i as int)),
                starts@.len() > 0,
                starts@[0] == 0,
                forall|j: int| 0 <= j < starts@.len() ==> starts@[j] <= i,
                forall|j: int, k: int| 0 <= j < k < starts@.len() ==> starts@[j] < starts@[k],
            decreases count - i,
        {
            let ghost before = as_nats(starts@);
            assert(bytes@.take(i + 1).drop_last() =~= bytes@.take(i as int));
            assert(bytes@.take(i + 1).last() == bytes@[i as int]);
            if bytes[i] == 10 {
                starts.push(i + 1);
                assert(as_nats(starts@) =~= before.push((i + 1) as nat));
            }
            i += 1;
        }
        assert(bytes@.take(count as int) =~= bytes@);
        LineIndex { line_starts: starts }
    }

    /// The number, from 1, of the line that byte offset `offset` lies on.
    pub fn line_number(&self, offset: u32) -> (r: usize)
        ensures
            r == line_in(self@, offset as nat),
            r >= 1,
    {
        proof {
            use_type_invariant(&*self);
        }
        let starts = &self.line_starts;
        let wanted: usize = offset as usize;
        let mut low: usize = 1;
        let mut high: usize = starts.len();
        while low < high
            invariant
                starts == &self.line_starts,
                wanted == offset,
                1 <= low <= high <= starts@.len(),
                starts@[low - 1] <= wanted,
                high < starts@.len() ==> wanted < starts@[high as int],
                forall|i: int, j: int| 0 <= i < j < starts@.len() ==> starts@[i] < starts@[j],
            decreases high - low,
        {
            let mid: usize = low + (high - low) / 2;
            if starts[mid] <= wanted {
                low = mid + 1;
            } else {
                high = mid;
            }
        }
        proof {
            lemma_line_in(self@, offset as nat, low as int);
        }
        low
    }
}

/// In an increasing list, the first `k` starts are those at or before `offset`.
proof fn lemma_line_in(starts: Seq<nat>, offset: nat, k: int)
    requires
        0 <= k <= starts.len(),
        forall|i: int| 0 <= i < k ==> starts[i] <= offset,
        forall|i: int| k <= i < starts.len() ==> starts[i] > offset,
    ensures
        line_in(starts, offset) == k,
    decreases starts.len(),
{
    if starts.len() > 0 {
        if k == starts.len() {
            lemma_line_in(starts.drop_last(), offset, k - 1);
        } else {
            lemma_line_in(starts.drop_last(), offset, k);
        }
    }
}

/// A later offset lies on the same line or on a later one.
pub proof fn law_lines_are_monotone(starts: Seq<nat>, a: nat, b: nat)
    requires
        a <= b,
    ensures
        line_in(starts, a) <= line_in(starts, b),
    decreases starts.len(),
{
    if starts.len() > 0 {
        law_lines_are_monotone(starts.drop_last(), a, b);
    }
}

/// How many line feeds a text of bytes holds.
pub open spec fn line_feeds(bytes: Seq<u8>) -> nat
    decreases bytes.len(),
{
    if bytes.len() == 0 {
        0
    } else {
        line_feeds(bytes.drop_last()) + if bytes.last() == 10 {
            1nat
        } else {
            0nat
        }
    }
}

/// The line of an offset is one more than the number of line feeds before it.
pub proof fn law_line_counts_line_feeds(bytes: Seq<u8>, offset: nat)
    ensures
        line_in(line_starts(bytes), offset) == 1 + line_feeds(
            bytes.take(if offset < bytes.len() { offset as int } else { bytes.len() as int }),
        ),
    decreases bytes.len(),
{
    if bytes.len() == 0 {
        reveal_with_fuel(line_in, 2);
        assert(line_starts(bytes).drop_last() =~= seq![]);
        assert(bytes.take(0) =~= bytes);
    } else {
        let rest = bytes.drop_last();
        law_line_counts_line_feeds(rest, offset);
        if bytes.last() == 10 {
            assert(line_starts(bytes).drop_last() =~= line_starts(rest));
        }
        if offset >= bytes.len() {
            assert(bytes.take(bytes.len() as int) =~= bytes);
            assert(rest.take(rest.len() as int) =~= rest);
        } else {
            assert(bytes.take(offset as int) =~= rest.take(offset as int));
        }
    }
}

/// How many lines lie between two offsets, both lines counted.
pub fn line_count(index: &LineIndex, start: u32, end: u32) -> (r: usize)
    requires
        start <= end,
    ensures
        r == line_in(index@, end as nat) - line_in(index@, start as nat) + 1,
        r >= 1,
{
    let start_line: usize = index.line_number(start);
    let end_line: usize = index.line_number(end);
    proof {
        law_lines_are_monotone(index@, start as nat, end as nat);
    }
    end_line - start_line + 1
}

// ── Blocks as text ──────────────────────────────────────────────────────────

/// A block as text that holds everything about it but its positions, so that two
/// blocks have the same text where they differ in nothing else.
pub open spec fn dump(block: Seq<Stmt>) -> Seq<char> {
    written(block_shape(block))
}

/// A block as text that holds everything about it but its positions.
pub fn dump_stmts(stmts: &[Stmt]) -> (r: String)
    ensures
        r@ == dump(stmts@),
{
    write_block(stmts)
}

/// Two blocks have the same text if and only if they have the same structure.
pub proof fn law_dumps_tell_blocks_apart(a: Seq<Stmt>, b: Seq<Stmt>)
    ensures
        dump(a) == dump(b) <==> block_shape(a) == block_shape(b),
{
    law_texts_tell_structures_apart(block_shape(a), block_shape(b));
}

// ── Positions ───────────────────────────────────────────────────────────────

/// Where a statement stands.
pub open spec fn stmt_range(s: &Stmt) -> TextRange {
    match s {
        Stmt::FunctionDef(n) => n.range,
        Stmt::AsyncFunctionDef(n) => n.range,
        Stmt::ClassDef(n) => n.range,
        Stmt::Return(n) => n.range,
        Stmt::Delete(n) => n.range,
        Stmt::Assign(n) => n.range,
        Stmt::TypeAlias(n) => n.range,
        Stmt::AugAssign(n) => n.range,
        Stmt::AnnAssign(n) => n.range,
        Stmt::For(n) => n.range,
        Stmt::AsyncFor(n) => n.range,
        Stmt::While(n) => n.range,
        Stmt::If(n) => n.range,
        Stmt::With(n) => n.range,
        Stmt::AsyncWith(n) => n.range,
        Stmt::Match(n) => n.range,
        Stmt::Raise(n) => n.range,
        Stmt::Try(n) => n.range,
        Stmt::TryStar(n) => n.range,
        Stmt::Assert(n) => n.range,
        Stmt::Import(n) => n.range,
        Stmt::ImportFrom(n) => n.range,
        Stmt::Global(n) => n.range,
        Stmt::Nonlocal(n) => n.range,
        Stmt::Expr(n) => n.range,
        Stmt::Pass(n) => n.range,
        Stmt::Break(n) => n.range,
        Stmt::Continue(n) => n.range,
    }
}

/// The byte offset at which a statement begins.
pub fn stmt_start(s: &Stmt) -> (r: u32)
    ensures
        r == range_start(stmt_range(s)),
{
    match s {
        Stmt::FunctionDef(n) => start_of(&n.range),
        Stmt::AsyncFunctionDef(n) => start_of(&n.range),
        Stmt::ClassDef(n) => start_of(&n.range),
        Stmt::Return(n) => start_of(&n.range),
        Stmt::Delete(n) => start_of(&n.range),
        Stmt::Assign(n) => start_of(&n.range),
        Stmt::TypeAlias(n) => start_of(&n.range),
        Stmt::AugAssign(n) => start_of(&n.range),
        Stmt::AnnAssign(n) => start_of(&n.range),
        Stmt::For(n) => start_of(&n.range),
        Stmt::AsyncFor(n) => start_of(&n.range),
        Stmt::While(n) => start_of(&n.range),
        Stmt::If(n) => start_of(&n.range),
        Stmt::With(n) => start_of(&n.range),
        Stmt::AsyncWith(n) => start_of(&n.range),
        Stmt::Match(n) => start_of(&n.range),
        Stmt::Raise(n) => start_of(&n.range),
        Stmt::Try(n) => start_of(&n.range),
        Stmt::TryStar(n) => start_of(&n.range),
        Stmt::Assert(n) => start_of(&n.range),
        Stmt::Import(n) => start_of(&n.range),
        Stmt::ImportFrom(n) => start_of(&n.range),
        Stmt::Global(n) => start_of(&n.range),
        Stmt::Nonlocal(n) => start_of(&n.range),
        Stmt::Expr(n) => start_of(&n.range),
        Stmt::Pass(n) => start_of(&n.range),
        Stmt::Break(n) => start_of(&n.range),
        Stmt::Continue(n) => start_of(&n.range),
    }
}

// ── Functions ───────────────────────────────────────────────────────────────

/// Whether a statement defines a function.
pub open spec fn is_def(s: &Stmt) -> bool {
    s is FunctionDef || s is AsyncFunctionDef
}

/// The name of a function definition.
pub open spec fn def_name(s: &Stmt) -> Seq<char> {
    match s {
        Stmt::FunctionDef(n) => identifier_text(n.name),
        Stmt::AsyncFunctionDef(n) => identifier_text(n.name),
        _ => seq![],
    }
}

/// The parameters of a function definition.
pub open spec fn def_args(s: &Stmt) -> Arguments {
    match s {
        Stmt::FunctionDef(n) => *n.args,
        Stmt::AsyncFunctionDef(n) => *n.args,
        _ => arbitrary(),
    }
}

/// The return annotation of a function definition.
pub open spec fn def_returns(s: &Stmt) -> Option<Box<Expr>> {
    match s {
        Stmt::FunctionDef(n) => n.returns,
        Stmt::AsyncFunctionDef(n) => n.returns,
        _ => None,
    }
}

/// The body of a function definition.
pub open spec fn def_body(s: &Stmt) -> Seq<Stmt> {
    match s {
        Stmt::FunctionDef(n) => n.body@,
        Stmt::AsyncFunctionDef(n) => n.body@,
        _ => seq![],
    }
}

/// Where a function definition stands.
pub open spec fn def_range(s: &Stmt) -> TextRange {
    match s {
        Stmt::FunctionDef(n) => n.range,
        Stmt::AsyncFunctionDef(n) => n.range,
        _ => arbitrary(),
    }
}

/// A function definition, asynchronous or not.
pub struct FuncNode<'a> {
    pub stmt: &'a Stmt,
    pub name: String,
    pub start: u32,
}

impl<'a> FuncNode<'a> {
    /// The statement is a function definition, and the name and the position are
    /// its own.
    pub open spec fn well_formed(self) -> bool {
        &&& is_def(self.stmt)
        &&& self.name@ == def_name(self.stmt)
        &&& self.start == range_start(def_range(self.stmt))
    }

    /// The parameters.
    pub fn args(&self) -> (r: &'a Arguments)
        requires
            self.well_formed(),
        ensures
            *r == def_args(self.stmt),
    {
        match self.stmt {
            Stmt::FunctionDef(n) => &n.args,
            Stmt::AsyncFunctionDef(n) => &n.args,
            _ => unreached(),
        }
    }

    /// The return annotation.
    pub fn return_annotation(&self) -> (r: Option<&'a Expr>)
        requires
            self.well_formed(),
        ensures
            match r {
                Some(e) => def_returns(self.stmt) matches Some(b) && *b == *e,
                None => def_returns(self.stmt) is None,
            },
    {
        let annotation: &Option<Box<Expr>> = match self.stmt {
            Stmt::FunctionDef(n) => &n.returns,
            Stmt::AsyncFunctionDef(n) => &n.returns,
            _ => unreached(),
        };
        match annotation {
            Some(e) => Some(e),
            None => None,
        }
    }

    /// The statements of the body.
    pub fn body(&self) -> (r: &'a [Stmt])
        requires
            self.well_formed(),
        ensures
            r@ == def_body(self.stmt),
    {
        match self.stmt {
            Stmt::FunctionDef(n) => n.body.as_slice(),
            Stmt::AsyncFunctionDef(n) => n.body.as_slice(),
            _ => unreached(),
        }
    }

    /// The byte offset at which the function ends.
    pub fn end(&self) -> (r: u32)
        requires
            self.well_formed(),
        ensures
            r == range_end(def_range(self.stmt)),
            self.start <= r,
    {
        match self.stmt {
            Stmt::FunctionDef(n) => end_of(&n.range),
            Stmt::AsyncFunctionDef(n) => end_of(&n.range),
            _ => unreached(),
        }
    }
}

/// The function definition that a visit found, if it found one.
pub open spec fn found_def<'a>() -> spec_fn(Seen<'a>) -> Seq<&'a Stmt> {
    |v: Seen<'a>|
        match v.node {
            Node::Stmt(s) => if is_def(s) {
                seq![s]
            } else {
                seq![]
            },
            _ => seq![],
        }
}

/// The function definitions in a list of statements, at any nesting level, each
/// before those inside it.
pub open spec fn functions<'a>(body: Seq<Stmt>) -> Seq<&'a Stmt> {
    walk_stmts(body, statements(), outset()).flat_map(found_def())
}

/// The function definition that a visit found, with the name of the nearest class
/// around it.
pub open spec fn found_member<'a>() -> spec_fn(Seen<'a>) -> Seq<(Option<Seq<char>>, &'a Stmt)> {
    |v: Seen<'a>|
        match v.node {
            Node::Stmt(s) => if is_def(s) {
                seq![(class_name(v.class), s)]
            } else {
                seq![]
            },
            _ => seq![],
        }
}

/// The text of an optional class name.
pub open spec fn class_name(class: Option<&rustpython_ast::Identifier>) -> Option<Seq<char>> {
    match class {
        Some(id) => Some(identifier_text(*id)),
        None => None,
    }
}

/// The function definitions in a list of statements, at any nesting level, each
/// with the name of the nearest class around it.
pub open spec fn members<'a>(body: Seq<Stmt>) -> Seq<(Option<Seq<char>>, &'a Stmt)> {
    walk_stmts(body, statements(), outset()).flat_map(found_member())
}

/// The definitions that a list of function nodes wraps.
pub open spec fn func_stmts<'a>(v: Seq<FuncNode<'a>>) -> Seq<&'a Stmt> {
    v.map_values(|f: FuncNode<'a>| f.stmt)
}

/// The class names and definitions of a list of members.
pub open spec fn member_stmts<'a>(v: Seq<(Option<String>, FuncNode<'a>)>) -> Seq<
    (Option<Seq<char>>, &'a Stmt),
> {
    v.map_values(|f: (Option<String>, FuncNode<'a>)| (crate::models::opt_text(f.0), f.1.stmt))
}

/// The function node of a statement, if it defines a function.
fn as_func<'a>(s: &'a Stmt) -> (r: Option<FuncNode<'a>>)
    ensures
        r is Some <==> is_def(s),
        r matches Some(f) ==> f.well_formed() && f.stmt == s,
{
    match s {
        Stmt::FunctionDef(n) => Some(
            FuncNode { stmt: s, name: name_of(&n.name).to_owned(), start: start_of(&n.range) },
        ),
        Stmt::AsyncFunctionDef(n) => Some(
            FuncNode { stmt: s, name: name_of(&n.name).to_owned(), start: start_of(&n.range) },
        ),
        _ => None,
    }
}

/// The function definitions in `module_body`, at any nesting level.
pub fn collect_functions<'a>(module_body: &'a [Stmt]) -> (r: Vec<FuncNode<'a>>)
    ensures
        func_stmts(r@) == functions(module_body@),
        forall|i: int| 0 <= i < r@.len() ==> (#[trigger] r@[i]).well_formed(),
{
    let all = visits(module_body, statements());
    let ghost w = walk_stmts(module_body@, statements(), outset());
    let ghost f = found_def();
    let mut out: Vec<FuncNode<'a>> = Vec::new();
    let mut i: usize = 0;
    assert(func_stmts(out@) =~= w.take(0).flat_map(f));
    while i < all.len()
        invariant
            i <= all@.len(),
            w == seen(all@),
            f == found_def(),
            func_stmts(out@) == w.take(i as int).flat_map(f),
            forall|j: int| 0 <= j < out@.len() ==> (#[trigger] out@[j]).well_formed(),
        decreases all@.len() - i,
    {
        let ghost before = func_stmts(out@);
        proof {
            w.lemma_flat_map_take_append(f, i as int);
            assert(w[i as int] == all@[i as int]@);
        }
        if let Node::Stmt(s) = all[i].node {
            if let Some(func) = as_func(s) {
                out.push(func);
                assert(func_stmts(out@) =~= before + seq![s]);
            } else {
                assert(before + seq![] =~= before);
            }
        } else {
            assert(before + seq![] =~= before);
        }
        i += 1;
    }
    assert(w.take(i as int) =~= w);
    out
}

/// The function definitions in `module_body`, at any nesting level, each with the
/// name of the nearest class around it.
pub fn collect_functions_with_class_context<'a>(module_body: &'a [Stmt]) -> (r: Vec<
    (Option<String>, FuncNode<'a>),
>)
    ensures
        member_stmts(r@) == members(module_body@),
        forall|i: int| 0 <= i < r@.len() ==> (#[trigger] r@[i]).1.well_formed(),
{
    let all = visits(module_body, statements());
    let ghost w = walk_stmts(module_body@, statements(), outset());
    let ghost f = found_member();
    let mut out: Vec<(Option<String>, FuncNode<'a>)> = Vec::new();
    let mut i: usize = 0;
    assert(member_stmts(out@) =~= w.take(0).flat_map(f));
    while i < all.len()
        invariant
            i <= all@.len(),
            w == seen(all@),
            f == found_member(),
            member_stmts(out@) == w.take(i as int).flat_map(f),
            forall|j: int| 0 <= j < out@.len() ==> (#[trigger] out@[j]).1.well_formed(),
        decreases all@.len() - i,
    {
        let ghost before = member_stmts(out@);
        proof {
            w.lemma_flat_map_take_append(f, i as int);
            assert(w[i as int] == all@[i as int]@);
        }
        if let Node::Stmt(s) = all[i].node {
            if let Some(func) = as_func(s) {
                let class: Option<String> = match all[i].class {
                    Some(id) => Some(name_of(id).to_owned()),
                    None => None,
                };
                out.push((class, func));
                assert(member_stmts(out@) =~= before + seq![
                    (class_name(all@[i as int].class), s),
                ]);
            } else {
                assert(before + seq![] =~= before);
            }
        } else {
            assert(before + seq![] =~= before);
        }
        i += 1;
    }
    assert(w.take(i as int) =~= w);
    out
}

/// The two collections of functions agree.
pub proof fn law_members_are_functions<'a>(body: Seq<Stmt>)
    ensures
        members(body).map_values(|m: (Option<Seq<char>>, &'a Stmt)| m.1) == functions(body),
{
    lemma_members_are_functions(walk_stmts(body, statements(), outset()));
}

proof fn lemma_members_are_functions<'a>(w: Seq<Seen<'a>>)
    ensures
        w.flat_map(found_member()).map_values(|m: (Option<Seq<char>>, &'a Stmt)| m.1)
            == w.flat_map(found_def()),
    decreases w.len(),
{
    let g = |m: (Option<Seq<char>>, &'a Stmt)| m.1;
    if w.len() == 0 {
        assert(w.flat_map(found_member()).map_values(g) =~= w.flat_map(found_def()));
    } else {
        let rest = w.drop_last();
        lemma_members_are_functions(rest);
        assert(w =~= rest.push(w.last()));
        rest.lemma_flat_map_push(found_member(), w.last());
        rest.lemma_flat_map_push(found_def(), w.last());
        let a = rest.flat_map(found_member());
        let b = found_member()(w.last());
        assert((a + b).map_values(g) =~= a.map_values(g) + b.map_values(g));
        assert(b.map_values(g) =~= found_def()(w.last()));
    }
}

// ── Trivial bodies ──────────────────────────────────────────────────────────

/// Whether a statement is a string on its own.
pub open spec fn is_docstring(s: &Stmt) -> bool {
    s matches Stmt::Expr(e) && *e.value matches Expr::Constant(c) && c.value is Str
}

/// Whether a statement is `...` on its own.
pub open spec fn is_ellipsis(s: &Stmt) -> bool {
    s matches Stmt::Expr(e) && *e.value matches Expr::Constant(c) && c.value is Ellipsis
}

/// A statement unless it is a string on its own.
pub open spec fn unless_docstring<'a>() -> spec_fn(Stmt) -> Seq<&'a Stmt> {
    |s: Stmt|
        if is_docstring(&s) {
            seq![]
        } else {
            seq![&s]
        }
}

/// The statements of a body but for strings on their own.
pub open spec fn meaningful<'a>(body: Seq<Stmt>) -> Seq<&'a Stmt> {
    body.flat_map(unless_docstring())
}

/// Whether a body is a stub: nothing, or a single `pass`, `...` or `raise`, besides
/// strings on their own.
pub open spec fn is_stub(body: Seq<Stmt>) -> bool {
    let m = meaningful(body);
    m.len() == 0 || (m.len() == 1 && (m[0] is Pass || m[0] is Raise || is_ellipsis(m[0])))
}

/// Whether a statement is a string on its own.
pub fn is_docstring_only(s: &Stmt) -> (r: bool)
    ensures
        r == is_docstring(s),
{
    match s {
        Stmt::Expr(e) => match &*e.value {
            Expr::Constant(c) => match &c.value {
                Constant::Str(_) => true,
                _ => false,
            },
            _ => false,
        },
        _ => false,
    }
}

/// Whether a statement is `...` on its own.
pub fn is_ellipsis_only(s: &Stmt) -> (r: bool)
    ensures
        r == is_ellipsis(s),
{
    match s {
        Stmt::Expr(e) => match &*e.value {
            Expr::Constant(c) => match &c.value {
                Constant::Ellipsis => true,
                _ => false,
            },
            _ => false,
        },
        _ => false,
    }
}

/// The statements of a body but for strings on their own.
pub fn meaningful_stmts<'a>(body: &'a [Stmt]) -> (r: Vec<&'a Stmt>)
    ensures
        r@ == meaningful(body@),
{
    let ghost f = unless_docstring();
    let mut out: Vec<&'a Stmt> = Vec::new();
    let mut i: usize = 0;
    assert(out@ =~= body@.take(0).flat_map(f));
    while i < body.len()
        invariant
            i <= body@.len(),
            f == unless_docstring(),
            out@ == body@.take(i as int).flat_map(f),
        decreases body@.len() - i,
    {
        let ghost before = out@;
        proof {
            body@.lemma_flat_map_take_append(f, i as int);
        }
        if !is_docstring_only(&body[i]) {
            out.push(&body[i]);
            assert(out@ =~= before + seq![&body@[i as int]]);
        } else {
            assert(before + seq![] =~= before);
        }
        i += 1;
    }
    assert(body@.take(i as int) =~= body@);
    out
}

/// Whether a body is a stub that does not count as duplication.
pub fn is_trivial_body(body: &[Stmt]) -> (r: bool)
    ensures
        r == is_stub(body@),
{
    let found = meaningful_stmts(body);
    if found.len() == 0 {
        return true;
    }
    if found.len() != 1 {
        return false;
    }
    match found[0] {
        Stmt::Pass(_) => true,
        Stmt::Raise(_) => true,
        _ => is_ellipsis_only(found[0]),
    }
}

// ── Complexity ──────────────────────────────────────────────────────────────

/// How many paths a node adds to those through its function.
pub open spec fn branch_weight(v: Seen) -> int {
    match v.node {
        Node::Stmt(s) => if s is If || s is While || s is For || s is AsyncFor || s is Assert {
            1
        } else {
            0
        },
        Node::Handler(_) => 1,
        Node::Expr(Expr::BoolOp(n)) => n.values@.len() - 1,
        Node::Expr(e) => if e is ListComp || e is SetComp || e is DictComp || e is GeneratorExp {
            1
        } else {
            0
        },
        _ => 0,
    }
}

/// `n`, held within the range of `i64`.
pub open spec fn clamp(n: int) -> int {
    if n > i64::MAX {
        i64::MAX as int
    } else if n < i64::MIN {
        i64::MIN as int
    } else {
        n
    }
}

/// One more than the weights of the nodes, held within the range of `i64`.
pub open spec fn complexity_of(visits: Seq<Seen>) -> int
    decreases visits.len(),
{
    if visits.len() == 0 {
        1
    } else {
        clamp(complexity_of(visits.drop_last()) + branch_weight(visits.last()))
    }
}

/// The cyclomatic complexity of a function: one more than the branches in it,
/// those in nested functions, parameters and decorators among them.
pub open spec fn complexity(s: &Stmt) -> int {
    complexity_of(walk_stmt(s, crate::walk::expressions(), outset()))
}

/// The sum of the weights of the nodes.
pub open spec fn total_weight(visits: Seq<Seen>) -> int
    decreases visits.len(),
{
    if visits.len() == 0 {
        0
    } else {
        total_weight(visits.drop_last()) + branch_weight(visits.last())
    }
}

/// Within the range of `i64`, the complexity is one more than the sum of the
/// weights.
pub proof fn law_complexity_is_a_sum(visits: Seq<Seen>)
    requires
        forall|k: int|
            0 <= k <= visits.len() ==> i64::MIN <= 1 + #[trigger] total_weight(visits.take(k))
                <= i64::MAX,
    ensures
        complexity_of(visits) == 1 + total_weight(visits),
    decreases visits.len(),
{
    if visits.len() > 0 {
        let rest = visits.drop_last();
        assert forall|k: int| 0 <= k <= rest.len() implies i64::MIN <= 1 + #[trigger] total_weight(
            rest.take(k),
        ) <= i64::MAX by {
            assert(rest.take(k) =~= visits.take(k));
        }
        law_complexity_is_a_sum(rest);
        assert(visits.take(visits.len() as int) =~= visits);
    }
}

fn weight_of(v: &Visit) -> (r: i128)
    ensures
        r == branch_weight(v@),
        -1 <= r <= usize::MAX,
{
    match &v.node {
        Node::Stmt(s) => match s {
            Stmt::If(_) | Stmt::While(_) | Stmt::For(_) | Stmt::AsyncFor(_) | Stmt::Assert(_) => 1,
            _ => 0,
        },
        Node::Handler(_) => 1,
        Node::Expr(e) => match e {
            Expr::BoolOp(n) => n.values.len() as i128 - 1,
            Expr::ListComp(_) | Expr::SetComp(_) | Expr::DictComp(_) | Expr::GeneratorExp(_) => 1,
            _ => 0,
        },
        _ => 0,
    }
}

/// The cyclomatic complexity of a function.
pub fn cyclomatic_complexity(func: &FuncNode) -> (r: i64)
    ensures
        r == complexity(func.stmt),
{
    let all = visits_of(func.stmt, crate::walk::expressions());
    let ghost w = seen(all@);
    let mut total: i64 = 1;
    let mut i: usize = 0;
    while i < all.len()
        invariant
            i <= all@.len(),
            w == seen(all@),
            total == complexity_of(w.take(i as int)),
        decreases all@.len() - i,
    {
        assert(w.take(i + 1).drop_last() =~= w.take(i as int));
        assert(w.take(i + 1).last() == all@[i as int]@);
        let next: i128 = total as i128 + weight_of(&all[i]);
        total = if next > i64::MAX as i128 {
            i64::MAX
        } else if next < i64::MIN as i128 {
            i64::MIN
        } else {
            next as i64
        };
        i += 1;
    }
    assert(w.take(i as int) =~= w);
    total
}

// ── Nesting ─────────────────────────────────────────────────────────────────

/// The largest number of blocks around a node.
pub open spec fn deepest(visits: Seq<Seen>) -> nat
    decreases visits.len(),
{
    if visits.len() == 0 {
        0
    } else {
        let before = deepest(visits.drop_last());
        if visits.last().nesting > before {
            visits.last().nesting
        } else {
            before
        }
    }
}

/// How deep the blocks of a function are nested, those of nested functions among
/// them.
pub open spec fn nesting(s: &Stmt) -> nat {
    deepest(walk_stmt(s, statements(), outset()))
}

/// How deep the blocks of a function are nested.
pub fn nesting_depth(func: &FuncNode) -> (r: usize)
    ensures
        r == nesting(func.stmt),
{
    let all = visits_of(func.stmt, statements());
    let ghost w = seen(all@);
    let mut most: usize = 0;
    let mut i: usize = 0;
    while i < all.len()
        invariant
            i <= all@.len(),
            w == seen(all@),
            most == deepest(w.take(i as int)),
        decreases all@.len() - i,
    {
        assert(w.take(i + 1).drop_last() =~= w.take(i as int));
        assert(w.take(i + 1).last() == all@[i as int]@);
        if all[i].nesting > most {
            most = all[i].nesting;
        }
        i += 1;
    }
    assert(w.take(i as int) =~= w);
    most
}

/// No node of a walk lies deeper than the deepest, and one lies as deep.
pub proof fn law_deepest_is_the_maximum(visits: Seq<Seen>)
    ensures
        forall|i: int| 0 <= i < visits.len() ==> (#[trigger] visits[i]).nesting <= deepest(visits),
        deepest(visits) == 0 || exists|i: int|
            0 <= i < visits.len() && (#[trigger] visits[i]).nesting == deepest(visits),
    decreases visits.len(),
{
    if visits.len() > 0 {
        let rest = visits.drop_last();
        law_deepest_is_the_maximum(rest);
        assert forall|i: int| 0 <= i < visits.len() implies (#[trigger] visits[i]).nesting
            <= deepest(visits) by {
            if i < rest.len() {
                assert(rest[i] == visits[i]);
            }
        }
        if deepest(visits) > 0 {
            if visits.last().nesting > deepest(rest) {
                assert(visits[visits.len() - 1].nesting == deepest(visits));
            } else {
                let i = choose|i: int|
                    0 <= i < rest.len() && (#[trigger] rest[i]).nesting == deepest(rest);
                assert(visits[i].nesting == deepest(visits));
            }
        }
    }
}

// ── Returns ─────────────────────────────────────────────────────────────────

/// Statements and plain operands, but for those of nested functions and lambdas.
#[verifier::allow_in_spec]
pub fn own_statements() -> Coverage
    returns
        (Coverage {
            arguments: false,
            comprehensions: false,
            keywords: KeywordValues::Skipped,
            with_items: false,
            functions: false,
            classes: true,
            lambdas: false,
            type_checking: true,
            dict_heads: true,
        }),
{
    Coverage {
        arguments: false,
        comprehensions: false,
        keywords: KeywordValues::Skipped,
        with_items: false,
        functions: false,
        classes: true,
        lambdas: false,
        type_checking: true,
        dict_heads: true,
    }
}

/// How many of the visits are `return` statements.
pub open spec fn count_returns(visits: Seq<Seen>) -> nat
    decreases visits.len(),
{
    if visits.len() == 0 {
        0
    } else {
        count_returns(visits.drop_last()) + if visits.last().node matches Node::Stmt(s)
            && s is Return {
            1nat
        } else {
            0nat
        }
    }
}

/// How many `return` statements a function has of its own.
pub open spec fn own_returns(s: &Stmt) -> nat {
    count_returns(stmt_parts(s, own_statements(), outset()))
}

/// How many `return` statements a function has of its own, those of nested
/// functions left out.
pub fn count_own_returns(func: &FuncNode) -> (r: usize)
    ensures
        r == own_returns(func.stmt),
{
    let all = visits_inside(func.stmt, own_statements());
    let ghost w = seen(all@);
    let mut n: usize = 0;
    let mut i: usize = 0;
    while i < all.len()
        invariant
            i <= all@.len(),
            w == seen(all@),
            n <= i,
            n == count_returns(w.take(i as int)),
        decreases all@.len() - i,
    {
        assert(w.take(i + 1).drop_last() =~= w.take(i as int));
        assert(w.take(i + 1).last() == all@[i as int]@);
        if let Node::Stmt(s) = all[i].node {
            if let Stmt::Return(_) = s {
                n += 1;
            }
        }
        i += 1;
    }
    assert(w.take(i as int) =~= w);
    n
}

// ── Names ───────────────────────────────────────────────────────────────────

/// Whether a name is private by convention.
pub open spec fn private(name: Seq<char>) -> bool {
    "_"@.is_prefix_of(name)
}

/// Whether a name is private by convention.
pub fn is_private(name: &str) -> (r: bool)
    ensures
        r == private(name@),
{
    starts_with(name, "_")
}

} // verus!
