//! The structure of syntax trees: everything about them but their positions.
//!
//! A structure is a list of words and structures. It is written as text in such a way
//! that different structures have different texts.

use crate::syntax::{
    float_digits, float_texts, identifier_text, int_of, int_value, integer_digits, integer_text,
    name_of,
};
use crate::text::{count_text, dec, texts};
use crate::unparse::{name_operator, operator_name};
use rustpython_ast::{
    Alias, Arg, ArgWithDefault, Arguments, BoolOp, CmpOp, Comprehension, Constant, ConversionFlag,
    ExceptHandler, Expr, ExprContext, Identifier, Int, Keyword, MatchCase, Pattern, Stmt,
    TypeParam, UnaryOp, WithItem,
};
use vstd::prelude::*;
use vstd::string::*;

verus! {

// ── Structures and their texts ──────────────────────────────────────────────

/// A structure: a word or a list.
pub enum Shape {
    Word(Seq<char>),
    List(Seq<Shape>),
}

/// A character within quotes.
pub open spec fn escaped(c: char) -> Seq<char> {
    if c == '"' || c == '\\' {
        seq!['\\', c]
    } else {
        seq![c]
    }
}

/// A text within quotes, up to and with the closing one.
pub open spec fn quoted(t: Seq<char>) -> Seq<char>
    decreases t.len(),
{
    if t.len() == 0 {
        seq!['"']
    } else {
        escaped(t[0]) + quoted(t.skip(1))
    }
}

/// A structure as text: a word in quotes, a list in brackets.
pub open spec fn written(s: Shape) -> Seq<char>
    decreases s,
{
    match s {
        Shape::Word(t) => seq!['"'] + quoted(t),
        Shape::List(l) => seq!['('] + written_all(l) + seq![')'],
    }
}

/// Structures as text, one after the other.
pub open spec fn written_all(l: Seq<Shape>) -> Seq<char>
    decreases l,
{
    if l.len() == 0 {
        seq![]
    } else {
        written_all(l.drop_last()) + written(l.last())
    }
}

proof fn lemma_written_push(l: Seq<Shape>, x: Shape)
    ensures
        written_all(l.push(x)) == written_all(l) + written(x),
{
    assert(l.push(x).drop_last() =~= l);
}

proof fn lemma_written_front(l: Seq<Shape>)
    requires
        l.len() > 0,
    ensures
        written_all(l) == written(l[0]) + written_all(l.skip(1)),
    decreases l.len(),
{
    let rest = l.drop_last();
    if rest.len() > 0 {
        lemma_written_front(rest);
        assert(rest.skip(1) =~= l.skip(1).drop_last());
        assert(l.skip(1).last() == l.last());
        assert(written_all(l) =~= written(l[0]) + written_all(l.skip(1)));
    } else {
        assert(written_all(rest) =~= seq![]);
        assert(written_all(l.skip(1)) =~= seq![]);
        assert(written_all(l) =~= written(l[0]) + written_all(l.skip(1)));
    }
}

proof fn lemma_quoted_differ(a: Seq<char>, b: Seq<char>, x: Seq<char>, y: Seq<char>)
    requires
        quoted(a) + x == quoted(b) + y,
    ensures
        a == b,
        x == y,
    decreases a.len(),
{
    let whole = quoted(a) + x;
    let other = quoted(b) + y;
    assert(whole[0] == other[0]);
    if a.len() == 0 && b.len() == 0 {
        assert(a =~= b);
        assert(x =~= whole.skip(1));
        assert(y =~= other.skip(1));
    } else if a.len() == 0 {
        assert(other =~= escaped(b[0]) + (quoted(b.skip(1)) + y));
        assert(other[0] == escaped(b[0])[0]);
        assert(whole[0] == '"');
    } else if b.len() == 0 {
        assert(whole =~= escaped(a[0]) + (quoted(a.skip(1)) + x));
        assert(whole[0] == escaped(a[0])[0]);
        assert(other[0] == '"');
    } else {
        let rest_a = quoted(a.skip(1)) + x;
        let rest_b = quoted(b.skip(1)) + y;
        assert(whole =~= escaped(a[0]) + rest_a);
        assert(other =~= escaped(b[0]) + rest_b);
        assert(whole[0] == other[0]);
        assert(whole[0] == '\\' ==> whole[1] == a[0]);
        assert(other[0] == '\\' ==> other[1] == b[0]);
        assert(a[0] == b[0]);
        let n = escaped(a[0]).len() as int;
        assert(rest_a =~= whole.skip(n));
        assert(rest_b =~= other.skip(n));
        lemma_quoted_differ(a.skip(1), b.skip(1), x, y);
        assert(a =~= seq![a[0]] + a.skip(1));
        assert(b =~= seq![b[0]] + b.skip(1));
    }
}

proof fn lemma_shapes_differ(a: Shape, b: Shape, x: Seq<char>, y: Seq<char>)
    requires
        written(a) + x == written(b) + y,
    ensures
        a == b,
        x == y,
    decreases a,
{
    let whole = written(a) + x;
    let other = written(b) + y;
    assert(whole[0] == other[0]);
    match (a, b) {
        (Shape::Word(s), Shape::Word(t)) => {
            assert(quoted(s) + x =~= whole.skip(1));
            assert(quoted(t) + y =~= other.skip(1));
            lemma_quoted_differ(s, t, x, y);
        },
        (Shape::List(l), Shape::List(m)) => {
            assert(written_all(l) + seq![')'] + x =~= whole.skip(1));
            assert(written_all(m) + seq![')'] + y =~= other.skip(1));
            lemma_lists_differ(l, m, x, y);
        },
        (Shape::Word(_), Shape::List(_)) => {
            assert(whole[0] == '"');
            assert(other[0] == '(');
        },
        (Shape::List(_), Shape::Word(_)) => {
            assert(whole[0] == '(');
            assert(other[0] == '"');
        },
    }
}

proof fn lemma_lists_differ(l: Seq<Shape>, m: Seq<Shape>, x: Seq<char>, y: Seq<char>)
    requires
        written_all(l) + seq![')'] + x == written_all(m) + seq![')'] + y,
    ensures
        l == m,
        x == y,
    decreases l,
{
    let whole = written_all(l) + seq![')'] + x;
    let other = written_all(m) + seq![')'] + y;
    if l.len() == 0 && m.len() == 0 {
        assert(l =~= m);
        assert(x =~= whole.skip(1));
        assert(y =~= other.skip(1));
    } else if l.len() == 0 {
        lemma_written_front(m);
        assert(whole[0] == ')');
        assert(other[0] == written(m[0])[0]);
    } else if m.len() == 0 {
        lemma_written_front(l);
        assert(other[0] == ')');
        assert(whole[0] == written(l[0])[0]);
    } else {
        lemma_written_front(l);
        lemma_written_front(m);
        let rest_l = written_all(l.skip(1)) + seq![')'] + x;
        let rest_m = written_all(m.skip(1)) + seq![')'] + y;
        assert(whole =~= written(l[0]) + rest_l);
        assert(other =~= written(m[0]) + rest_m);
        lemma_shapes_differ(l[0], m[0], rest_l, rest_m);
        lemma_lists_differ(l.skip(1), m.skip(1), x, y);
        assert(l =~= seq![l[0]] + l.skip(1));
        assert(m =~= seq![m[0]] + m.skip(1));
    }
}

/// Different structures have different texts.
pub proof fn law_texts_tell_structures_apart(a: Shape, b: Shape)
    ensures
        written(a) == written(b) <==> a == b,
{
    if written(a) == written(b) {
        assert(written(a) + seq![] =~= written(a));
        assert(written(b) + seq![] =~= written(b));
        lemma_shapes_differ(a, b, seq![], seq![]);
    }
}

// ── Writing structures ──────────────────────────────────────────────────────

/// A structure that is written as text.
struct Written {
    text: String,
    shape: Ghost<Shape>,
}

impl Written {
    #[verifier::type_invariant]
    spec fn holds(self) -> bool {
        self.text@ == written(self.shape@)
    }
}

/// A list that is being written.
struct Row {
    text: String,
    shapes: Ghost<Seq<Shape>>,
}

impl Row {
    #[verifier::type_invariant]
    spec fn holds(self) -> bool {
        self.text@ == seq!['('] + written_all(self.shapes@)
    }

    /// An empty list.
    fn new() -> (r: Self)
        ensures
            r.shapes@ == Seq::<Shape>::empty(),
    {
        let mut text = String::new();
        text.push('(');
        assert(text@ =~= seq!['('] + written_all(seq![]));
        Row { text, shapes: Ghost(Seq::empty()) }
    }

    /// A list with one more structure.
    fn with(self, x: Written) -> (r: Self)
        ensures
            r.shapes@ == self.shapes@.push(x.shape@),
    {
        proof {
            use_type_invariant(&self);
            use_type_invariant(&x);
            lemma_written_push(self.shapes@, x.shape@);
        }
        let text = self.text.concat(x.text.as_str());
        assert(text@ =~= seq!['('] + written_all(self.shapes@.push(x.shape@)));
        Row { text, shapes: Ghost(self.shapes@.push(x.shape@)) }
    }

    /// The whole list.
    fn done(self) -> (r: Written)
        ensures
            r.shape@ == Shape::List(self.shapes@),
    {
        proof {
            use_type_invariant(&self);
        }
        let mut text = self.text;
        text.push(')');
        assert(text@ =~= written(Shape::List(self.shapes@)));
        Written { text, shape: Ghost(Shape::List(self.shapes@)) }
    }
}

/// A list that begins with a word.
fn node(name: &str) -> (r: Row)
    ensures
        r.shapes@ == seq![Shape::Word(name@)],
{
    Row::new().with(word(name))
}

fn word(t: &str) -> (r: Written)
    ensures
        r.shape@ == Shape::Word(t@),
{
    let mut text = String::new();
    text.push('"');
    let n: usize = t.unicode_len();
    let mut i: usize = 0;
    assert(t@.skip(0) =~= t@);
    assert(text@ + quoted(t@.skip(0)) =~= seq!['"'] + quoted(t@));
    while i < n
        invariant
            i <= n == t@.len(),
            text@ + quoted(t@.skip(i as int)) == seq!['"'] + quoted(t@),
        decreases n - i,
    {
        let c = t.get_char(i);
        let ghost before = text@;
        let ghost rest = t@.skip(i as int);
        if c == '"' || c == '\\' {
            text.push('\\');
        }
        text.push(c);
        proof {
            assert(rest[0] == c);
            assert(rest.skip(1) =~= t@.skip(i + 1));
            assert(text@ =~= before + escaped(c));
            assert(text@ + quoted(t@.skip(i + 1)) =~= before + quoted(rest));
        }
        i += 1;
    }
    proof {
        assert(t@.skip(n as int) =~= seq![]);
        assert(quoted(t@.skip(n as int)) =~= seq!['"']);
    }
    text.push('"');
    assert(text@ =~= written(Shape::Word(t@)));
    Written { text, shape: Ghost(Shape::Word(t@)) }
}

// ── Words ───────────────────────────────────────────────────────────────────

/// The name of a context.
pub open spec fn context_name(x: ExprContext) -> Seq<char> {
    match x {
        ExprContext::Load => "Load"@,
        ExprContext::Store => "Store"@,
        ExprContext::Del => "Del"@,
    }
}

fn context(x: &ExprContext) -> (r: Written)
    ensures
        r.shape@ == Shape::Word(context_name(*x)),
{
    match x {
        ExprContext::Load => word("Load"),
        ExprContext::Store => word("Store"),
        ExprContext::Del => word("Del"),
    }
}

/// The name of a boolean operator.
pub open spec fn bool_op_name(x: BoolOp) -> Seq<char> {
    match x {
        BoolOp::And => "And"@,
        BoolOp::Or => "Or"@,
    }
}

fn bool_op(x: &BoolOp) -> (r: Written)
    ensures
        r.shape@ == Shape::Word(bool_op_name(*x)),
{
    match x {
        BoolOp::And => word("And"),
        BoolOp::Or => word("Or"),
    }
}

/// The name of a unary operator.
pub open spec fn unary_op_name(x: UnaryOp) -> Seq<char> {
    match x {
        UnaryOp::Invert => "Invert"@,
        UnaryOp::Not => "Not"@,
        UnaryOp::UAdd => "UAdd"@,
        UnaryOp::USub => "USub"@,
    }
}

fn unary_op(x: &UnaryOp) -> (r: Written)
    ensures
        r.shape@ == Shape::Word(unary_op_name(*x)),
{
    match x {
        UnaryOp::Invert => word("Invert"),
        UnaryOp::Not => word("Not"),
        UnaryOp::UAdd => word("UAdd"),
        UnaryOp::USub => word("USub"),
    }
}

/// The name of a comparison.
pub open spec fn comparison_name(x: CmpOp) -> Seq<char> {
    match x {
        CmpOp::Eq => "Eq"@,
        CmpOp::NotEq => "NotEq"@,
        CmpOp::Lt => "Lt"@,
        CmpOp::LtE => "LtE"@,
        CmpOp::Gt => "Gt"@,
        CmpOp::GtE => "GtE"@,
        CmpOp::Is => "Is"@,
        CmpOp::IsNot => "IsNot"@,
        CmpOp::In => "In"@,
        CmpOp::NotIn => "NotIn"@,
    }
}

fn comparison(x: &CmpOp) -> (r: Written)
    ensures
        r.shape@ == Shape::Word(comparison_name(*x)),
{
    match x {
        CmpOp::Eq => word("Eq"),
        CmpOp::NotEq => word("NotEq"),
        CmpOp::Lt => word("Lt"),
        CmpOp::LtE => word("LtE"),
        CmpOp::Gt => word("Gt"),
        CmpOp::GtE => word("GtE"),
        CmpOp::Is => word("Is"),
        CmpOp::IsNot => word("IsNot"),
        CmpOp::In => word("In"),
        CmpOp::NotIn => word("NotIn"),
    }
}

/// The name of a conversion.
pub open spec fn conversion_name(x: ConversionFlag) -> Seq<char> {
    match x {
        ConversionFlag::None => "None"@,
        ConversionFlag::Str => "Str"@,
        ConversionFlag::Ascii => "Ascii"@,
        ConversionFlag::Repr => "Repr"@,
    }
}

fn conversion(x: &ConversionFlag) -> (r: Written)
    ensures
        r.shape@ == Shape::Word(conversion_name(*x)),
{
    match x {
        ConversionFlag::None => word("None"),
        ConversionFlag::Str => word("Str"),
        ConversionFlag::Ascii => word("Ascii"),
        ConversionFlag::Repr => word("Repr"),
    }
}

/// The name of a truth value.
pub open spec fn flag_name(x: bool) -> Seq<char> {
    if x {
        "True"@
    } else {
        "False"@
    }
}

fn flag(x: bool) -> (r: Written)
    ensures
        r.shape@ == Shape::Word(flag_name(x)),
{
    if x {
        word("True")
    } else {
        word("False")
    }
}

/// A text that may be absent.
pub open spec fn opt_text_shape(t: Option<String>) -> Shape {
    match t {
        Some(s) => Shape::List(seq![Shape::Word(s@)]),
        None => Shape::List(seq![]),
    }
}

fn opt_text(t: &Option<String>) -> (r: Written)
    ensures
        r.shape@ == opt_text_shape(*t),
{
    match t {
        Some(s) => Row::new().with(word(s.as_str())).done(),
        None => Row::new().done(),
    }
}

/// A name that may be absent.
pub open spec fn opt_name_shape(t: Option<Identifier>) -> Shape {
    match t {
        Some(id) => Shape::List(seq![Shape::Word(identifier_text(id))]),
        None => Shape::List(seq![]),
    }
}

fn opt_name(t: &Option<Identifier>) -> (r: Written)
    ensures
        r.shape@ == opt_name_shape(*t),
{
    match t {
        Some(id) => Row::new().with(word(name_of(id))).done(),
        None => Row::new().done(),
    }
}

/// A small number that may be absent.
pub open spec fn opt_int_shape(n: Option<Int>) -> Shape {
    match n {
        Some(n) => Shape::List(seq![Shape::Word(dec(int_value(n) as nat))]),
        None => Shape::List(seq![]),
    }
}

fn opt_int(n: &Option<Int>) -> (r: Written)
    ensures
        r.shape@ == opt_int_shape(*n),
{
    match n {
        Some(n) => Row::new().with(word(count_text(int_of(n)).as_str())).done(),
        None => Row::new().done(),
    }
}

/// Names.
pub open spec fn name_shapes(s: Seq<Identifier>) -> Seq<Shape>
    decreases s.len(),
{
    if s.len() == 0 {
        seq![]
    } else {
        name_shapes(s.drop_last()).push(Shape::Word(identifier_text(s.last())))
    }
}

fn names(v: &Vec<Identifier>) -> (r: Written)
    ensures
        r.shape@ == Shape::List(name_shapes(v@)),
{
    let mut row = Row::new();
    let mut i: usize = 0;
    while i < v.len()
        invariant
            i <= v@.len(),
            row.shapes@ == name_shapes(v@.take(i as int)),
        decreases v@.len() - i,
    {
        row = row.with(word(name_of(&v[i])));
        assert(v@.take(i + 1).drop_last() =~= v@.take(i as int));
        i += 1;
    }
    assert(v@.take(i as int) =~= v@);
    row.done()
}

/// Comparisons.
pub open spec fn comparison_shapes(s: Seq<CmpOp>) -> Seq<Shape>
    decreases s.len(),
{
    if s.len() == 0 {
        seq![]
    } else {
        comparison_shapes(s.drop_last()).push(Shape::Word(comparison_name(s.last())))
    }
}

fn comparisons(v: &Vec<CmpOp>) -> (r: Written)
    ensures
        r.shape@ == Shape::List(comparison_shapes(v@)),
{
    let mut row = Row::new();
    let mut i: usize = 0;
    while i < v.len()
        invariant
            i <= v@.len(),
            row.shapes@ == comparison_shapes(v@.take(i as int)),
        decreases v@.len() - i,
    {
        row = row.with(comparison(&v[i]));
        assert(v@.take(i + 1).drop_last() =~= v@.take(i as int));
        i += 1;
    }
    assert(v@.take(i as int) =~= v@);
    row.done()
}

/// Bytes, in decimal.
pub open spec fn byte_shapes(s: Seq<u8>) -> Seq<Shape>
    decreases s.len(),
{
    if s.len() == 0 {
        seq![]
    } else {
        byte_shapes(s.drop_last()).push(Shape::Word(dec(s.last() as nat)))
    }
}

fn byte_words(v: &Vec<u8>) -> (r: Written)
    ensures
        r.shape@ == Shape::List(byte_shapes(v@)),
{
    let mut row = Row::new();
    let mut i: usize = 0;
    while i < v.len()
        invariant
            i <= v@.len(),
            row.shapes@ == byte_shapes(v@.take(i as int)),
        decreases v@.len() - i,
    {
        row = row.with(word(count_text(v[i] as usize).as_str()));
        assert(v@.take(i + 1).drop_last() =~= v@.take(i as int));
        i += 1;
    }
    assert(v@.take(i as int) =~= v@);
    row.done()
}

// ── Literals ────────────────────────────────────────────────────────────────

/// A literal: what it is and its value.
pub open spec fn constant_shape(c: &Constant) -> Shape
    decreases c, 0nat,
{
    match c {
        Constant::None => Shape::List(seq![Shape::Word("None"@)]),
        Constant::Bool(b) => Shape::List(
            seq![Shape::Word("Bool"@)].push(Shape::Word(flag_name(*b))),
        ),
        Constant::Str(s) => Shape::List(seq![Shape::Word("Str"@)].push(Shape::Word(s@))),
        Constant::Bytes(b) => Shape::List(
            seq![Shape::Word("Bytes"@)].push(Shape::List(byte_shapes(b@))),
        ),
        Constant::Int(n) => Shape::List(
            seq![Shape::Word("Int"@)].push(Shape::Word(integer_text(*n))),
        ),
        Constant::Tuple(t) => Shape::List(
            seq![Shape::Word("Tuple"@)].push(Shape::List(constant_shapes(t@))),
        ),
        Constant::Float(_) => Shape::List(
            seq![Shape::Word("Float"@)].push(Shape::Word(float_texts(*c)[0])),
        ),
        Constant::Complex { .. } => Shape::List(
            seq![Shape::Word("Complex"@)]
                .push(Shape::Word(float_texts(*c)[0]))
                .push(Shape::Word(float_texts(*c)[1])),
        ),
        Constant::Ellipsis => Shape::List(seq![Shape::Word("Ellipsis"@)]),
    }
}

fn constant(c: &Constant) -> (r: Written)
    ensures
        r.shape@ == constant_shape(c),
    decreases c, 0nat,
{
    match c {
        Constant::None => node("None").done(),
        Constant::Bool(b) => node("Bool").with(flag(*b)).done(),
        Constant::Str(s) => node("Str").with(word(s.as_str())).done(),
        Constant::Bytes(b) => node("Bytes").with(byte_words(b)).done(),
        Constant::Int(n) => node("Int").with(word(integer_digits(n).as_str())).done(),
        Constant::Tuple(t) => node("Tuple").with(constants(t)).done(),
        Constant::Float(_) => {
            let numbers = float_digits(c);
            assert(texts(numbers@)[0] == numbers@[0]@);
            node("Float").with(word(numbers[0].as_str())).done()
        },
        Constant::Complex { .. } => {
            let numbers = float_digits(c);
            assert(texts(numbers@)[0] == numbers@[0]@);
            assert(texts(numbers@)[1] == numbers@[1]@);
            node("Complex").with(word(numbers[0].as_str())).with(
                word(numbers[1].as_str()),
            ).done()
        },
        Constant::Ellipsis => node("Ellipsis").done(),
    }
}

/// Literals.
pub open spec fn constant_shapes(s: Seq<Constant>) -> Seq<Shape>
    decreases s, 0nat,
{
    if s.len() == 0 {
        seq![]
    } else {
        constant_shapes(s.drop_last()).push(constant_shape(&s.last()))
    }
}

fn constants(v: &Vec<Constant>) -> (r: Written)
    ensures
        r.shape@ == Shape::List(constant_shapes(v@)),
    decreases v, 0nat,
{
    let mut row = Row::new();
    let mut i: usize = 0;
    while i < v.len()
        invariant
            i <= v@.len(),
            row.shapes@ == constant_shapes(v@.take(i as int)),
        decreases v@.len() - i,
    {
        row = row.with(constant(&v[i]));
        assert(v@.take(i + 1).drop_last() =~= v@.take(i as int));
        i += 1;
    }
    assert(v@.take(i as int) =~= v@);
    row.done()
}

// ── Expressions ─────────────────────────────────────────────────────────────

/// An expression: what it is and its parts.
pub open spec fn expr_shape(x: &Expr) -> Shape
    decreases x, 0nat,
{
    match x {
        Expr::BoolOp(n) => Shape::List(
            seq![Shape::Word("BoolOp"@)]
                .push(Shape::Word(bool_op_name(n.op)))
                .push(Shape::List(expr_shapes(n.values@))),
        ),
        Expr::NamedExpr(n) => Shape::List(
            seq![Shape::Word("NamedExpr"@)]
                .push(expr_shape(&n.target))
                .push(expr_shape(&n.value)),
        ),
        Expr::BinOp(n) => Shape::List(
            seq![Shape::Word("BinOp"@)]
                .push(expr_shape(&n.left))
                .push(Shape::Word(operator_name(n.op)))
                .push(expr_shape(&n.right)),
        ),
        Expr::UnaryOp(n) => Shape::List(
            seq![Shape::Word("UnaryOp"@)]
                .push(Shape::Word(unary_op_name(n.op)))
                .push(expr_shape(&n.operand)),
        ),
        Expr::Lambda(n) => Shape::List(
            seq![Shape::Word("Lambda"@)]
                .push(arguments_shape(&n.args))
                .push(expr_shape(&n.body)),
        ),
        Expr::IfExp(n) => Shape::List(
            seq![Shape::Word("IfExp"@)]
                .push(expr_shape(&n.test))
                .push(expr_shape(&n.body))
                .push(expr_shape(&n.orelse)),
        ),
        Expr::Dict(n) => Shape::List(
            seq![Shape::Word("Dict"@)]
                .push(Shape::List(opt_expr_shapes(n.keys@)))
                .push(Shape::List(expr_shapes(n.values@))),
        ),
        Expr::Set(n) => Shape::List(
            seq![Shape::Word("Set"@)]
                .push(Shape::List(expr_shapes(n.elts@))),
        ),
        Expr::ListComp(n) => Shape::List(
            seq![Shape::Word("ListComp"@)]
                .push(expr_shape(&n.elt))
                .push(Shape::List(comprehension_shapes(n.generators@))),
        ),
        Expr::SetComp(n) => Shape::List(
            seq![Shape::Word("SetComp"@)]
                .push(expr_shape(&n.elt))
                .push(Shape::List(comprehension_shapes(n.generators@))),
        ),
        Expr::DictComp(n) => Shape::List(
            seq![Shape::Word("DictComp"@)]
                .push(expr_shape(&n.key))
                .push(expr_shape(&n.value))
                .push(Shape::List(comprehension_shapes(n.generators@))),
        ),
        Expr::GeneratorExp(n) => Shape::List(
            seq![Shape::Word("GeneratorExp"@)]
                .push(expr_shape(&n.elt))
                .push(Shape::List(comprehension_shapes(n.generators@))),
        ),
        Expr::Await(n) => Shape::List(seq![Shape::Word("Await"@)].push(expr_shape(&n.value))),
        Expr::Yield(n) => Shape::List(seq![Shape::Word("Yield"@)].push(opt_expr_shape(n.value))),
        Expr::YieldFrom(n) => Shape::List(
            seq![Shape::Word("YieldFrom"@)]
                .push(expr_shape(&n.value)),
        ),
        Expr::Compare(n) => Shape::List(
            seq![Shape::Word("Compare"@)]
                .push(expr_shape(&n.left))
                .push(Shape::List(comparison_shapes(n.ops@)))
                .push(Shape::List(expr_shapes(n.comparators@))),
        ),
        Expr::Call(n) => Shape::List(
            seq![Shape::Word("Call"@)]
                .push(expr_shape(&n.func))
                .push(Shape::List(expr_shapes(n.args@)))
                .push(Shape::List(keyword_shapes(n.keywords@))),
        ),
        Expr::FormattedValue(n) => Shape::List(
            seq![Shape::Word("FormattedValue"@)]
                .push(expr_shape(&n.value))
                .push(Shape::Word(conversion_name(n.conversion)))
                .push(opt_expr_shape(n.format_spec)),
        ),
        Expr::JoinedStr(n) => Shape::List(
            seq![Shape::Word("JoinedStr"@)]
                .push(Shape::List(expr_shapes(n.values@))),
        ),
        Expr::Constant(n) => Shape::List(
            seq![Shape::Word("Constant"@)]
                .push(constant_shape(&n.value))
                .push(opt_text_shape(n.kind)),
        ),
        Expr::Attribute(n) => Shape::List(
            seq![Shape::Word("Attribute"@)]
                .push(expr_shape(&n.value))
                .push(Shape::Word(identifier_text(n.attr)))
                .push(Shape::Word(context_name(n.ctx))),
        ),
        Expr::Subscript(n) => Shape::List(
            seq![Shape::Word("Subscript"@)]
                .push(expr_shape(&n.value))
                .push(expr_shape(&n.slice))
                .push(Shape::Word(context_name(n.ctx))),
        ),
        Expr::Starred(n) => Shape::List(
            seq![Shape::Word("Starred"@)]
                .push(expr_shape(&n.value))
                .push(Shape::Word(context_name(n.ctx))),
        ),
        Expr::Name(n) => Shape::List(
            seq![Shape::Word("Name"@)]
                .push(Shape::Word(identifier_text(n.id)))
                .push(Shape::Word(context_name(n.ctx))),
        ),
        Expr::List(n) => Shape::List(
            seq![Shape::Word("List"@)]
                .push(Shape::List(expr_shapes(n.elts@)))
                .push(Shape::Word(context_name(n.ctx))),
        ),
        Expr::Tuple(n) => Shape::List(
            seq![Shape::Word("Tuple"@)]
                .push(Shape::List(expr_shapes(n.elts@)))
                .push(Shape::Word(context_name(n.ctx))),
        ),
        Expr::Slice(n) => Shape::List(
            seq![Shape::Word("Slice"@)]
                .push(opt_expr_shape(n.lower))
                .push(opt_expr_shape(n.upper))
                .push(opt_expr_shape(n.step)),
        ),
    }
}

fn expr(x: &Expr) -> (r: Written)
    ensures
        r.shape@ == expr_shape(x),
    decreases x, 0nat,
{
    match x {
        Expr::BoolOp(n) => node("BoolOp").with(bool_op(&n.op)).with(exprs(&n.values)).done(),
        Expr::NamedExpr(n) => node("NamedExpr").with(expr(&n.target)).with(expr(&n.value)).done(),
        Expr::BinOp(n) => node("BinOp")
            .with(expr(&n.left))
            .with(word(name_operator(&n.op)))
            .with(expr(&n.right))
            .done(),
        Expr::UnaryOp(n) => node("UnaryOp").with(unary_op(&n.op)).with(expr(&n.operand)).done(),
        Expr::Lambda(n) => node("Lambda").with(arguments(&n.args)).with(expr(&n.body)).done(),
        Expr::IfExp(n) => node("IfExp")
            .with(expr(&n.test))
            .with(expr(&n.body))
            .with(expr(&n.orelse))
            .done(),
        Expr::Dict(n) => node("Dict").with(opt_exprs(&n.keys)).with(exprs(&n.values)).done(),
        Expr::Set(n) => node("Set").with(exprs(&n.elts)).done(),
        Expr::ListComp(n) => node("ListComp")
            .with(expr(&n.elt))
            .with(comprehensions(&n.generators))
            .done(),
        Expr::SetComp(n) => node("SetComp")
            .with(expr(&n.elt))
            .with(comprehensions(&n.generators))
            .done(),
        Expr::DictComp(n) => node("DictComp")
            .with(expr(&n.key))
            .with(expr(&n.value))
            .with(comprehensions(&n.generators))
            .done(),
        Expr::GeneratorExp(n) => node("GeneratorExp")
            .with(expr(&n.elt))
            .with(comprehensions(&n.generators))
            .done(),
        Expr::Await(n) => node("Await").with(expr(&n.value)).done(),
        Expr::Yield(n) => node("Yield").with(opt_expr(&n.value)).done(),
        Expr::YieldFrom(n) => node("YieldFrom").with(expr(&n.value)).done(),
        Expr::Compare(n) => node("Compare")
            .with(expr(&n.left))
            .with(comparisons(&n.ops))
            .with(exprs(&n.comparators))
            .done(),
        Expr::Call(n) => node("Call")
            .with(expr(&n.func))
            .with(exprs(&n.args))
            .with(keywords(&n.keywords))
            .done(),
        Expr::FormattedValue(n) => node("FormattedValue")
            .with(expr(&n.value))
            .with(conversion(&n.conversion))
            .with(opt_expr(&n.format_spec))
            .done(),
        Expr::JoinedStr(n) => node("JoinedStr").with(exprs(&n.values)).done(),
        Expr::Constant(n) => node("Constant")
            .with(constant(&n.value))
            .with(opt_text(&n.kind))
            .done(),
        Expr::Attribute(n) => node("Attribute")
            .with(expr(&n.value))
            .with(word(name_of(&n.attr)))
            .with(context(&n.ctx))
            .done(),
        Expr::Subscript(n) => node("Subscript")
            .with(expr(&n.value))
            .with(expr(&n.slice))
            .with(context(&n.ctx))
            .done(),
        Expr::Starred(n) => node("Starred").with(expr(&n.value)).with(context(&n.ctx)).done(),
        Expr::Name(n) => node("Name").with(word(name_of(&n.id))).with(context(&n.ctx)).done(),
        Expr::List(n) => node("List").with(exprs(&n.elts)).with(context(&n.ctx)).done(),
        Expr::Tuple(n) => node("Tuple").with(exprs(&n.elts)).with(context(&n.ctx)).done(),
        Expr::Slice(n) => node("Slice")
            .with(opt_expr(&n.lower))
            .with(opt_expr(&n.upper))
            .with(opt_expr(&n.step))
            .done(),
    }
}

/// An expression that may be absent.
pub open spec fn opt_expr_shape(x: Option<Box<Expr>>) -> Shape
    decreases x, 0nat,
{
    match x {
        Some(x) => Shape::List(seq![expr_shape(&*x)]),
        None => Shape::List(seq![]),
    }
}

fn opt_expr(x: &Option<Box<Expr>>) -> (r: Written)
    ensures
        r.shape@ == opt_expr_shape(*x),
    decreases x, 0nat,
{
    match x {
        Some(x) => Row::new().with(expr(x)).done(),
        None => Row::new().done(),
    }
}

/// Expressions.
pub open spec fn expr_shapes(s: Seq<Expr>) -> Seq<Shape>
    decreases s, 0nat,
{
    if s.len() == 0 {
        seq![]
    } else {
        expr_shapes(s.drop_last()).push(expr_shape(&s.last()))
    }
}

fn exprs(v: &Vec<Expr>) -> (r: Written)
    ensures
        r.shape@ == Shape::List(expr_shapes(v@)),
    decreases v, 0nat,
{
    let mut row = Row::new();
    let mut i: usize = 0;
    while i < v.len()
        invariant
            i <= v@.len(),
            row.shapes@ == expr_shapes(v@.take(i as int)),
        decreases v@.len() - i,
    {
        row = row.with(expr(&v[i]));
        assert(v@.take(i + 1).drop_last() =~= v@.take(i as int));
        i += 1;
    }
    assert(v@.take(i as int) =~= v@);
    row.done()
}

/// Expressions, some of which may be absent.
pub open spec fn opt_expr_shapes(s: Seq<Option<Expr>>) -> Seq<Shape>
    decreases s, 0nat,
{
    if s.len() == 0 {
        seq![]
    } else {
        opt_expr_shapes(s.drop_last()).push(match s.last() {
                Some(e) => Shape::List(seq![expr_shape(&e)]),
                None => Shape::List(seq![]),
            })
    }
}

fn opt_exprs(v: &Vec<Option<Expr>>) -> (r: Written)
    ensures
        r.shape@ == Shape::List(opt_expr_shapes(v@)),
    decreases v, 0nat,
{
    let mut row = Row::new();
    let mut i: usize = 0;
    while i < v.len()
        invariant
            i <= v@.len(),
            row.shapes@ == opt_expr_shapes(v@.take(i as int)),
        decreases v@.len() - i,
    {
        row = row.with(match &v[i] {
                Some(e) => Row::new().with(expr(e)).done(),
                None => Row::new().done(),
            });
        assert(v@.take(i + 1).drop_last() =~= v@.take(i as int));
        i += 1;
    }
    assert(v@.take(i as int) =~= v@);
    row.done()
}

/// One `for` clause of a comprehension.
pub open spec fn comprehension_shape(n: &Comprehension) -> Shape
    decreases n, 0nat,
{
    Shape::List(
        seq![expr_shape(&n.target)]
            .push(expr_shape(&n.iter))
            .push(Shape::List(expr_shapes(n.ifs@)))
            .push(Shape::Word(flag_name(n.is_async))),
    )
}

fn comprehension(n: &Comprehension) -> (r: Written)
    ensures
        r.shape@ == comprehension_shape(n),
    decreases n, 0nat,
{
    Row::new()
        .with(expr(&n.target))
        .with(expr(&n.iter))
        .with(exprs(&n.ifs))
        .with(flag(n.is_async))
        .done()
}

/// The clauses of a comprehension.
pub open spec fn comprehension_shapes(s: Seq<Comprehension>) -> Seq<Shape>
    decreases s, 0nat,
{
    if s.len() == 0 {
        seq![]
    } else {
        comprehension_shapes(s.drop_last()).push(comprehension_shape(&s.last()))
    }
}

fn comprehensions(v: &Vec<Comprehension>) -> (r: Written)
    ensures
        r.shape@ == Shape::List(comprehension_shapes(v@)),
    decreases v, 0nat,
{
    let mut row = Row::new();
    let mut i: usize = 0;
    while i < v.len()
        invariant
            i <= v@.len(),
            row.shapes@ == comprehension_shapes(v@.take(i as int)),
        decreases v@.len() - i,
    {
        row = row.with(comprehension(&v[i]));
        assert(v@.take(i + 1).drop_last() =~= v@.take(i as int));
        i += 1;
    }
    assert(v@.take(i as int) =~= v@);
    row.done()
}

/// A keyword argument.
pub open spec fn keyword_shape(n: &Keyword) -> Shape
    decreases n, 0nat,
{
    Shape::List(seq![opt_name_shape(n.arg)].push(expr_shape(&n.value)))
}

fn keyword(n: &Keyword) -> (r: Written)
    ensures
        r.shape@ == keyword_shape(n),
    decreases n, 0nat,
{
    Row::new().with(opt_name(&n.arg)).with(expr(&n.value)).done()
}

/// Keyword arguments.
pub open spec fn keyword_shapes(s: Seq<Keyword>) -> Seq<Shape>
    decreases s, 0nat,
{
    if s.len() == 0 {
        seq![]
    } else {
        keyword_shapes(s.drop_last()).push(keyword_shape(&s.last()))
    }
}

fn keywords(v: &Vec<Keyword>) -> (r: Written)
    ensures
        r.shape@ == Shape::List(keyword_shapes(v@)),
    decreases v, 0nat,
{
    let mut row = Row::new();
    let mut i: usize = 0;
    while i < v.len()
        invariant
            i <= v@.len(),
            row.shapes@ == keyword_shapes(v@.take(i as int)),
        decreases v@.len() - i,
    {
        row = row.with(keyword(&v[i]));
        assert(v@.take(i + 1).drop_last() =~= v@.take(i as int));
        i += 1;
    }
    assert(v@.take(i as int) =~= v@);
    row.done()
}

/// A parameter.
pub open spec fn arg_shape(n: &Arg) -> Shape
    decreases n, 0nat,
{
    Shape::List(
        seq![Shape::Word(identifier_text(n.arg))]
            .push(opt_expr_shape(n.annotation))
            .push(opt_text_shape(n.type_comment)),
    )
}

fn arg(n: &Arg) -> (r: Written)
    ensures
        r.shape@ == arg_shape(n),
    decreases n, 0nat,
{
    Row::new()
        .with(word(name_of(&n.arg)))
        .with(opt_expr(&n.annotation))
        .with(opt_text(&n.type_comment))
        .done()
}

/// A parameter that may be absent.
pub open spec fn opt_arg_shape(x: Option<Box<Arg>>) -> Shape
    decreases x, 0nat,
{
    match x {
        Some(x) => Shape::List(seq![arg_shape(&*x)]),
        None => Shape::List(seq![]),
    }
}

fn opt_arg(x: &Option<Box<Arg>>) -> (r: Written)
    ensures
        r.shape@ == opt_arg_shape(*x),
    decreases x, 0nat,
{
    match x {
        Some(x) => Row::new().with(arg(x)).done(),
        None => Row::new().done(),
    }
}

/// A parameter with its default.
pub open spec fn param_shape(n: &ArgWithDefault) -> Shape
    decreases n, 0nat,
{
    Shape::List(seq![arg_shape(&n.def)].push(opt_expr_shape(n.default)))
}

fn param(n: &ArgWithDefault) -> (r: Written)
    ensures
        r.shape@ == param_shape(n),
    decreases n, 0nat,
{
    Row::new().with(arg(&n.def)).with(opt_expr(&n.default)).done()
}

/// Parameters with their defaults.
pub open spec fn param_shapes(s: Seq<ArgWithDefault>) -> Seq<Shape>
    decreases s, 0nat,
{
    if s.len() == 0 {
        seq![]
    } else {
        param_shapes(s.drop_last()).push(param_shape(&s.last()))
    }
}

fn params(v: &Vec<ArgWithDefault>) -> (r: Written)
    ensures
        r.shape@ == Shape::List(param_shapes(v@)),
    decreases v, 0nat,
{
    let mut row = Row::new();
    let mut i: usize = 0;
    while i < v.len()
        invariant
            i <= v@.len(),
            row.shapes@ == param_shapes(v@.take(i as int)),
        decreases v@.len() - i,
    {
        row = row.with(param(&v[i]));
        assert(v@.take(i + 1).drop_last() =~= v@.take(i as int));
        i += 1;
    }
    assert(v@.take(i as int) =~= v@);
    row.done()
}

/// The parameters of a function or a lambda.
pub open spec fn arguments_shape(n: &Arguments) -> Shape
    decreases n, 0nat,
{
    Shape::List(
        seq![Shape::List(param_shapes(n.posonlyargs@))]
            .push(Shape::List(param_shapes(n.args@)))
            .push(opt_arg_shape(n.vararg))
            .push(Shape::List(param_shapes(n.kwonlyargs@)))
            .push(opt_arg_shape(n.kwarg)),
    )
}

fn arguments(n: &Arguments) -> (r: Written)
    ensures
        r.shape@ == arguments_shape(n),
    decreases n, 0nat,
{
    Row::new()
        .with(params(&n.posonlyargs))
        .with(params(&n.args))
        .with(opt_arg(&n.vararg))
        .with(params(&n.kwonlyargs))
        .with(opt_arg(&n.kwarg))
        .done()
}

// ── Statements ──────────────────────────────────────────────────────────────

/// A statement: what it is and its parts.
pub open spec fn stmt_shape(x: &Stmt) -> Shape
    decreases x, 0nat,
{
    match x {
        Stmt::FunctionDef(n) => Shape::List(
            seq![Shape::Word("FunctionDef"@)]
                .push(Shape::Word(identifier_text(n.name)))
                .push(arguments_shape(&n.args))
                .push(Shape::List(stmt_shapes(n.body@)))
                .push(Shape::List(expr_shapes(n.decorator_list@)))
                .push(opt_expr_shape(n.returns))
                .push(opt_text_shape(n.type_comment))
                .push(Shape::List(type_param_shapes(n.type_params@))),
        ),
        Stmt::AsyncFunctionDef(n) => Shape::List(
            seq![Shape::Word("AsyncFunctionDef"@)]
                .push(Shape::Word(identifier_text(n.name)))
                .push(arguments_shape(&n.args))
                .push(Shape::List(stmt_shapes(n.body@)))
                .push(Shape::List(expr_shapes(n.decorator_list@)))
                .push(opt_expr_shape(n.returns))
                .push(opt_text_shape(n.type_comment))
                .push(Shape::List(type_param_shapes(n.type_params@))),
        ),
        Stmt::ClassDef(n) => Shape::List(
            seq![Shape::Word("ClassDef"@)]
                .push(Shape::Word(identifier_text(n.name)))
                .push(Shape::List(expr_shapes(n.bases@)))
                .push(Shape::List(keyword_shapes(n.keywords@)))
                .push(Shape::List(stmt_shapes(n.body@)))
                .push(Shape::List(expr_shapes(n.decorator_list@)))
                .push(Shape::List(type_param_shapes(n.type_params@))),
        ),
        Stmt::Return(n) => Shape::List(seq![Shape::Word("Return"@)].push(opt_expr_shape(n.value))),
        Stmt::Delete(n) => Shape::List(
            seq![Shape::Word("Delete"@)]
                .push(Shape::List(expr_shapes(n.targets@))),
        ),
        Stmt::Assign(n) => Shape::List(
            seq![Shape::Word("Assign"@)]
                .push(Shape::List(expr_shapes(n.targets@)))
                .push(expr_shape(&n.value))
                .push(opt_text_shape(n.type_comment)),
        ),
        Stmt::TypeAlias(n) => Shape::List(
            seq![Shape::Word("TypeAlias"@)]
                .push(expr_shape(&n.name))
                .push(Shape::List(type_param_shapes(n.type_params@)))
                .push(expr_shape(&n.value)),
        ),
        Stmt::AugAssign(n) => Shape::List(
            seq![Shape::Word("AugAssign"@)]
                .push(expr_shape(&n.target))
                .push(Shape::Word(operator_name(n.op)))
                .push(expr_shape(&n.value)),
        ),
        Stmt::AnnAssign(n) => Shape::List(
            seq![Shape::Word("AnnAssign"@)]
                .push(expr_shape(&n.target))
                .push(expr_shape(&n.annotation))
                .push(opt_expr_shape(n.value))
                .push(Shape::Word(flag_name(n.simple))),
        ),
        Stmt::For(n) => Shape::List(
            seq![Shape::Word("For"@)]
                .push(expr_shape(&n.target))
                .push(expr_shape(&n.iter))
                .push(Shape::List(stmt_shapes(n.body@)))
                .push(Shape::List(stmt_shapes(n.orelse@)))
                .push(opt_text_shape(n.type_comment)),
        ),
        Stmt::AsyncFor(n) => Shape::List(
            seq![Shape::Word("AsyncFor"@)]
                .push(expr_shape(&n.target))
                .push(expr_shape(&n.iter))
                .push(Shape::List(stmt_shapes(n.body@)))
                .push(Shape::List(stmt_shapes(n.orelse@)))
                .push(opt_text_shape(n.type_comment)),
        ),
        Stmt::While(n) => Shape::List(
            seq![Shape::Word("While"@)]
                .push(expr_shape(&n.test))
                .push(Shape::List(stmt_shapes(n.body@)))
                .push(Shape::List(stmt_shapes(n.orelse@))),
        ),
        Stmt::If(n) => Shape::List(
            seq![Shape::Word("If"@)]
                .push(expr_shape(&n.test))
                .push(Shape::List(stmt_shapes(n.body@)))
                .push(Shape::List(stmt_shapes(n.orelse@))),
        ),
        Stmt::With(n) => Shape::List(
            seq![Shape::Word("With"@)]
                .push(Shape::List(with_item_shapes(n.items@)))
                .push(Shape::List(stmt_shapes(n.body@)))
                .push(opt_text_shape(n.type_comment)),
        ),
        Stmt::AsyncWith(n) => Shape::List(
            seq![Shape::Word("AsyncWith"@)]
                .push(Shape::List(with_item_shapes(n.items@)))
                .push(Shape::List(stmt_shapes(n.body@)))
                .push(opt_text_shape(n.type_comment)),
        ),
        Stmt::Match(n) => Shape::List(
            seq![Shape::Word("Match"@)]
                .push(expr_shape(&n.subject))
                .push(Shape::List(case_shapes(n.cases@))),
        ),
        Stmt::Raise(n) => Shape::List(
            seq![Shape::Word("Raise"@)]
                .push(opt_expr_shape(n.exc))
                .push(opt_expr_shape(n.cause)),
        ),
        Stmt::Try(n) => Shape::List(
            seq![Shape::Word("Try"@)]
                .push(Shape::List(stmt_shapes(n.body@)))
                .push(Shape::List(handler_shapes(n.handlers@)))
                .push(Shape::List(stmt_shapes(n.orelse@)))
                .push(Shape::List(stmt_shapes(n.finalbody@))),
        ),
        Stmt::TryStar(n) => Shape::List(
            seq![Shape::Word("TryStar"@)]
                .push(Shape::List(stmt_shapes(n.body@)))
                .push(Shape::List(handler_shapes(n.handlers@)))
                .push(Shape::List(stmt_shapes(n.orelse@)))
                .push(Shape::List(stmt_shapes(n.finalbody@))),
        ),
        Stmt::Assert(n) => Shape::List(
            seq![Shape::Word("Assert"@)]
                .push(expr_shape(&n.test))
                .push(opt_expr_shape(n.msg)),
        ),
        Stmt::Import(n) => Shape::List(
            seq![Shape::Word("Import"@)]
                .push(Shape::List(alias_shapes(n.names@))),
        ),
        Stmt::ImportFrom(n) => Shape::List(
            seq![Shape::Word("ImportFrom"@)]
                .push(opt_name_shape(n.module))
                .push(Shape::List(alias_shapes(n.names@)))
                .push(opt_int_shape(n.level)),
        ),
        Stmt::Global(n) => Shape::List(
            seq![Shape::Word("Global"@)]
                .push(Shape::List(name_shapes(n.names@))),
        ),
        Stmt::Nonlocal(n) => Shape::List(
            seq![Shape::Word("Nonlocal"@)]
                .push(Shape::List(name_shapes(n.names@))),
        ),
        Stmt::Expr(n) => Shape::List(seq![Shape::Word("Expr"@)].push(expr_shape(&n.value))),
        Stmt::Pass(_) => Shape::List(seq![Shape::Word("Pass"@)]),
        Stmt::Break(_) => Shape::List(seq![Shape::Word("Break"@)]),
        Stmt::Continue(_) => Shape::List(seq![Shape::Word("Continue"@)]),
    }
}

fn stmt(x: &Stmt) -> (r: Written)
    ensures
        r.shape@ == stmt_shape(x),
    decreases x, 0nat,
{
    match x {
        Stmt::FunctionDef(n) => node("FunctionDef")
            .with(word(name_of(&n.name)))
            .with(arguments(&n.args))
            .with(stmts(&n.body))
            .with(exprs(&n.decorator_list))
            .with(opt_expr(&n.returns))
            .with(opt_text(&n.type_comment))
            .with(type_params(&n.type_params))
            .done(),
        Stmt::AsyncFunctionDef(n) => node("AsyncFunctionDef")
            .with(word(name_of(&n.name)))
            .with(arguments(&n.args))
            .with(stmts(&n.body))
            .with(exprs(&n.decorator_list))
            .with(opt_expr(&n.returns))
            .with(opt_text(&n.type_comment))
            .with(type_params(&n.type_params))
            .done(),
        Stmt::ClassDef(n) => node("ClassDef")
            .with(word(name_of(&n.name)))
            .with(exprs(&n.bases))
            .with(keywords(&n.keywords))
            .with(stmts(&n.body))
            .with(exprs(&n.decorator_list))
            .with(type_params(&n.type_params))
            .done(),
        Stmt::Return(n) => node("Return").with(opt_expr(&n.value)).done(),
        Stmt::Delete(n) => node("Delete").with(exprs(&n.targets)).done(),
        Stmt::Assign(n) => node("Assign")
            .with(exprs(&n.targets))
            .with(expr(&n.value))
            .with(opt_text(&n.type_comment))
            .done(),
        Stmt::TypeAlias(n) => node("TypeAlias")
            .with(expr(&n.name))
            .with(type_params(&n.type_params))
            .with(expr(&n.value))
            .done(),
        Stmt::AugAssign(n) => node("AugAssign")
            .with(expr(&n.target))
            .with(word(name_operator(&n.op)))
            .with(expr(&n.value))
            .done(),
        Stmt::AnnAssign(n) => node("AnnAssign")
            .with(expr(&n.target))
            .with(expr(&n.annotation))
            .with(opt_expr(&n.value))
            .with(flag(n.simple))
            .done(),
        Stmt::For(n) => node("For")
            .with(expr(&n.target))
            .with(expr(&n.iter))
            .with(stmts(&n.body))
            .with(stmts(&n.orelse))
            .with(opt_text(&n.type_comment))
            .done(),
        Stmt::AsyncFor(n) => node("AsyncFor")
            .with(expr(&n.target))
            .with(expr(&n.iter))
            .with(stmts(&n.body))
            .with(stmts(&n.orelse))
            .with(opt_text(&n.type_comment))
            .done(),
        Stmt::While(n) => node("While")
            .with(expr(&n.test))
            .with(stmts(&n.body))
            .with(stmts(&n.orelse))
            .done(),
        Stmt::If(n) => node("If")
            .with(expr(&n.test))
            .with(stmts(&n.body))
            .with(stmts(&n.orelse))
            .done(),
        Stmt::With(n) => node("With")
            .with(with_items(&n.items))
            .with(stmts(&n.body))
            .with(opt_text(&n.type_comment))
            .done(),
        Stmt::AsyncWith(n) => node("AsyncWith")
            .with(with_items(&n.items))
            .with(stmts(&n.body))
            .with(opt_text(&n.type_comment))
            .done(),
        Stmt::Match(n) => node("Match").with(expr(&n.subject)).with(cases(&n.cases)).done(),
        Stmt::Raise(n) => node("Raise").with(opt_expr(&n.exc)).with(opt_expr(&n.cause)).done(),
        Stmt::Try(n) => node("Try")
            .with(stmts(&n.body))
            .with(handlers(&n.handlers))
            .with(stmts(&n.orelse))
            .with(stmts(&n.finalbody))
            .done(),
        Stmt::TryStar(n) => node("TryStar")
            .with(stmts(&n.body))
            .with(handlers(&n.handlers))
            .with(stmts(&n.orelse))
            .with(stmts(&n.finalbody))
            .done(),
        Stmt::Assert(n) => node("Assert").with(expr(&n.test)).with(opt_expr(&n.msg)).done(),
        Stmt::Import(n) => node("Import").with(aliases(&n.names)).done(),
        Stmt::ImportFrom(n) => node("ImportFrom")
            .with(opt_name(&n.module))
            .with(aliases(&n.names))
            .with(opt_int(&n.level))
            .done(),
        Stmt::Global(n) => node("Global").with(names(&n.names)).done(),
        Stmt::Nonlocal(n) => node("Nonlocal").with(names(&n.names)).done(),
        Stmt::Expr(n) => node("Expr").with(expr(&n.value)).done(),
        Stmt::Pass(_) => node("Pass").done(),
        Stmt::Break(_) => node("Break").done(),
        Stmt::Continue(_) => node("Continue").done(),
    }
}

/// Statements.
pub open spec fn stmt_shapes(s: Seq<Stmt>) -> Seq<Shape>
    decreases s, 0nat,
{
    if s.len() == 0 {
        seq![]
    } else {
        stmt_shapes(s.drop_last()).push(stmt_shape(&s.last()))
    }
}

fn stmts(v: &Vec<Stmt>) -> (r: Written)
    ensures
        r.shape@ == Shape::List(stmt_shapes(v@)),
    decreases v, 0nat,
{
    let mut row = Row::new();
    let mut i: usize = 0;
    while i < v.len()
        invariant
            i <= v@.len(),
            row.shapes@ == stmt_shapes(v@.take(i as int)),
        decreases v@.len() - i,
    {
        row = row.with(stmt(&v[i]));
        assert(v@.take(i + 1).drop_last() =~= v@.take(i as int));
        i += 1;
    }
    assert(v@.take(i as int) =~= v@);
    row.done()
}

/// An exception handler.
pub open spec fn handler_shape(h: &ExceptHandler) -> Shape
    decreases h, 0nat,
{
    match h {
        ExceptHandler::ExceptHandler(n) => Shape::List(
            seq![opt_expr_shape(n.type_)]
                .push(opt_name_shape(n.name))
                .push(Shape::List(stmt_shapes(n.body@))),
        ),
    }
}

fn handler(h: &ExceptHandler) -> (r: Written)
    ensures
        r.shape@ == handler_shape(h),
    decreases h, 0nat,
{
    match h {
        ExceptHandler::ExceptHandler(n) => Row::new()
            .with(opt_expr(&n.type_))
            .with(opt_name(&n.name))
            .with(stmts(&n.body))
            .done(),
    }
}

/// Exception handlers.
pub open spec fn handler_shapes(s: Seq<ExceptHandler>) -> Seq<Shape>
    decreases s, 0nat,
{
    if s.len() == 0 {
        seq![]
    } else {
        handler_shapes(s.drop_last()).push(handler_shape(&s.last()))
    }
}

fn handlers(v: &Vec<ExceptHandler>) -> (r: Written)
    ensures
        r.shape@ == Shape::List(handler_shapes(v@)),
    decreases v, 0nat,
{
    let mut row = Row::new();
    let mut i: usize = 0;
    while i < v.len()
        invariant
            i <= v@.len(),
            row.shapes@ == handler_shapes(v@.take(i as int)),
        decreases v@.len() - i,
    {
        row = row.with(handler(&v[i]));
        assert(v@.take(i + 1).drop_last() =~= v@.take(i as int));
        i += 1;
    }
    assert(v@.take(i as int) =~= v@);
    row.done()
}

/// An imported name.
pub open spec fn alias_shape(n: &Alias) -> Shape
    decreases n, 0nat,
{
    Shape::List(seq![Shape::Word(identifier_text(n.name))].push(opt_name_shape(n.asname)))
}

fn alias(n: &Alias) -> (r: Written)
    ensures
        r.shape@ == alias_shape(n),
    decreases n, 0nat,
{
    Row::new().with(word(name_of(&n.name))).with(opt_name(&n.asname)).done()
}

/// Imported names.
pub open spec fn alias_shapes(s: Seq<Alias>) -> Seq<Shape>
    decreases s, 0nat,
{
    if s.len() == 0 {
        seq![]
    } else {
        alias_shapes(s.drop_last()).push(alias_shape(&s.last()))
    }
}

fn aliases(v: &Vec<Alias>) -> (r: Written)
    ensures
        r.shape@ == Shape::List(alias_shapes(v@)),
    decreases v, 0nat,
{
    let mut row = Row::new();
    let mut i: usize = 0;
    while i < v.len()
        invariant
            i <= v@.len(),
            row.shapes@ == alias_shapes(v@.take(i as int)),
        decreases v@.len() - i,
    {
        row = row.with(alias(&v[i]));
        assert(v@.take(i + 1).drop_last() =~= v@.take(i as int));
        i += 1;
    }
    assert(v@.take(i as int) =~= v@);
    row.done()
}

/// A context manager.
pub open spec fn with_item_shape(n: &WithItem) -> Shape
    decreases n, 0nat,
{
    Shape::List(seq![expr_shape(&n.context_expr)].push(opt_expr_shape(n.optional_vars)))
}

fn with_item(n: &WithItem) -> (r: Written)
    ensures
        r.shape@ == with_item_shape(n),
    decreases n, 0nat,
{
    Row::new().with(expr(&n.context_expr)).with(opt_expr(&n.optional_vars)).done()
}

/// Context managers.
pub open spec fn with_item_shapes(s: Seq<WithItem>) -> Seq<Shape>
    decreases s, 0nat,
{
    if s.len() == 0 {
        seq![]
    } else {
        with_item_shapes(s.drop_last()).push(with_item_shape(&s.last()))
    }
}

fn with_items(v: &Vec<WithItem>) -> (r: Written)
    ensures
        r.shape@ == Shape::List(with_item_shapes(v@)),
    decreases v, 0nat,
{
    let mut row = Row::new();
    let mut i: usize = 0;
    while i < v.len()
        invariant
            i <= v@.len(),
            row.shapes@ == with_item_shapes(v@.take(i as int)),
        decreases v@.len() - i,
    {
        row = row.with(with_item(&v[i]));
        assert(v@.take(i + 1).drop_last() =~= v@.take(i as int));
        i += 1;
    }
    assert(v@.take(i as int) =~= v@);
    row.done()
}

/// A case of a `match` statement.
pub open spec fn case_shape(n: &MatchCase) -> Shape
    decreases n, 0nat,
{
    Shape::List(
        seq![pattern_shape(&n.pattern)]
            .push(opt_expr_shape(n.guard))
            .push(Shape::List(stmt_shapes(n.body@))),
    )
}

fn case(n: &MatchCase) -> (r: Written)
    ensures
        r.shape@ == case_shape(n),
    decreases n, 0nat,
{
    Row::new().with(pattern(&n.pattern)).with(opt_expr(&n.guard)).with(stmts(&n.body)).done()
}

/// The cases of a `match` statement.
pub open spec fn case_shapes(s: Seq<MatchCase>) -> Seq<Shape>
    decreases s, 0nat,
{
    if s.len() == 0 {
        seq![]
    } else {
        case_shapes(s.drop_last()).push(case_shape(&s.last()))
    }
}

fn cases(v: &Vec<MatchCase>) -> (r: Written)
    ensures
        r.shape@ == Shape::List(case_shapes(v@)),
    decreases v, 0nat,
{
    let mut row = Row::new();
    let mut i: usize = 0;
    while i < v.len()
        invariant
            i <= v@.len(),
            row.shapes@ == case_shapes(v@.take(i as int)),
        decreases v@.len() - i,
    {
        row = row.with(case(&v[i]));
        assert(v@.take(i + 1).drop_last() =~= v@.take(i as int));
        i += 1;
    }
    assert(v@.take(i as int) =~= v@);
    row.done()
}

/// A pattern: what it is and its parts.
pub open spec fn pattern_shape(x: &Pattern) -> Shape
    decreases x, 0nat,
{
    match x {
        Pattern::MatchValue(n) => Shape::List(
            seq![Shape::Word("MatchValue"@)]
                .push(expr_shape(&n.value)),
        ),
        Pattern::MatchSingleton(n) => Shape::List(
            seq![Shape::Word("MatchSingleton"@)]
                .push(constant_shape(&n.value)),
        ),
        Pattern::MatchSequence(n) => Shape::List(
            seq![Shape::Word("MatchSequence"@)]
                .push(Shape::List(pattern_shapes(n.patterns@))),
        ),
        Pattern::MatchMapping(n) => Shape::List(
            seq![Shape::Word("MatchMapping"@)]
                .push(Shape::List(expr_shapes(n.keys@)))
                .push(Shape::List(pattern_shapes(n.patterns@)))
                .push(opt_name_shape(n.rest)),
        ),
        Pattern::MatchClass(n) => Shape::List(
            seq![Shape::Word("MatchClass"@)]
                .push(expr_shape(&n.cls))
                .push(Shape::List(pattern_shapes(n.patterns@)))
                .push(Shape::List(name_shapes(n.kwd_attrs@)))
                .push(Shape::List(pattern_shapes(n.kwd_patterns@))),
        ),
        Pattern::MatchStar(n) => Shape::List(
            seq![Shape::Word("MatchStar"@)]
                .push(opt_name_shape(n.name)),
        ),
        Pattern::MatchAs(n) => Shape::List(
            seq![Shape::Word("MatchAs"@)]
                .push(opt_pattern_shape(n.pattern))
                .push(opt_name_shape(n.name)),
        ),
        Pattern::MatchOr(n) => Shape::List(
            seq![Shape::Word("MatchOr"@)]
                .push(Shape::List(pattern_shapes(n.patterns@))),
        ),
    }
}

fn pattern(x: &Pattern) -> (r: Written)
    ensures
        r.shape@ == pattern_shape(x),
    decreases x, 0nat,
{
    match x {
        Pattern::MatchValue(n) => node("MatchValue").with(expr(&n.value)).done(),
        Pattern::MatchSingleton(n) => node("MatchSingleton").with(constant(&n.value)).done(),
        Pattern::MatchSequence(n) => node("MatchSequence").with(patterns(&n.patterns)).done(),
        Pattern::MatchMapping(n) => node("MatchMapping")
            .with(exprs(&n.keys))
            .with(patterns(&n.patterns))
            .with(opt_name(&n.rest))
            .done(),
        Pattern::MatchClass(n) => node("MatchClass")
            .with(expr(&n.cls))
            .with(patterns(&n.patterns))
            .with(names(&n.kwd_attrs))
            .with(patterns(&n.kwd_patterns))
            .done(),
        Pattern::MatchStar(n) => node("MatchStar").with(opt_name(&n.name)).done(),
        Pattern::MatchAs(n) => node("MatchAs")
            .with(opt_pattern(&n.pattern))
            .with(opt_name(&n.name))
            .done(),
        Pattern::MatchOr(n) => node("MatchOr").with(patterns(&n.patterns)).done(),
    }
}

/// A pattern that may be absent.
pub open spec fn opt_pattern_shape(x: Option<Box<Pattern>>) -> Shape
    decreases x, 0nat,
{
    match x {
        Some(x) => Shape::List(seq![pattern_shape(&*x)]),
        None => Shape::List(seq![]),
    }
}

fn opt_pattern(x: &Option<Box<Pattern>>) -> (r: Written)
    ensures
        r.shape@ == opt_pattern_shape(*x),
    decreases x, 0nat,
{
    match x {
        Some(x) => Row::new().with(pattern(x)).done(),
        None => Row::new().done(),
    }
}

/// Patterns.
pub open spec fn pattern_shapes(s: Seq<Pattern>) -> Seq<Shape>
    decreases s, 0nat,
{
    if s.len() == 0 {
        seq![]
    } else {
        pattern_shapes(s.drop_last()).push(pattern_shape(&s.last()))
    }
}

fn patterns(v: &Vec<Pattern>) -> (r: Written)
    ensures
        r.shape@ == Shape::List(pattern_shapes(v@)),
    decreases v, 0nat,
{
    let mut row = Row::new();
    let mut i: usize = 0;
    while i < v.len()
        invariant
            i <= v@.len(),
            row.shapes@ == pattern_shapes(v@.take(i as int)),
        decreases v@.len() - i,
    {
        row = row.with(pattern(&v[i]));
        assert(v@.take(i + 1).drop_last() =~= v@.take(i as int));
        i += 1;
    }
    assert(v@.take(i as int) =~= v@);
    row.done()
}

/// A type parameter: what it is and its parts.
pub open spec fn type_param_shape(x: &TypeParam) -> Shape
    decreases x, 0nat,
{
    match x {
        TypeParam::TypeVar(n) => Shape::List(
            seq![Shape::Word("TypeVar"@)]
                .push(Shape::Word(identifier_text(n.name)))
                .push(opt_expr_shape(n.bound)),
        ),
        TypeParam::ParamSpec(n) => Shape::List(
            seq![Shape::Word("ParamSpec"@)]
                .push(Shape::Word(identifier_text(n.name))),
        ),
        TypeParam::TypeVarTuple(n) => Shape::List(
            seq![Shape::Word("TypeVarTuple"@)]
                .push(Shape::Word(identifier_text(n.name))),
        ),
    }
}

fn type_param(x: &TypeParam) -> (r: Written)
    ensures
        r.shape@ == type_param_shape(x),
    decreases x, 0nat,
{
    match x {
        TypeParam::TypeVar(n) => node("TypeVar")
            .with(word(name_of(&n.name)))
            .with(opt_expr(&n.bound))
            .done(),
        TypeParam::ParamSpec(n) => node("ParamSpec").with(word(name_of(&n.name))).done(),
        TypeParam::TypeVarTuple(n) => node("TypeVarTuple").with(word(name_of(&n.name))).done(),
    }
}

/// Type parameters.
pub open spec fn type_param_shapes(s: Seq<TypeParam>) -> Seq<Shape>
    decreases s, 0nat,
{
    if s.len() == 0 {
        seq![]
    } else {
        type_param_shapes(s.drop_last()).push(type_param_shape(&s.last()))
    }
}

fn type_params(v: &Vec<TypeParam>) -> (r: Written)
    ensures
        r.shape@ == Shape::List(type_param_shapes(v@)),
    decreases v, 0nat,
{
    let mut row = Row::new();
    let mut i: usize = 0;
    while i < v.len()
        invariant
            i <= v@.len(),
            row.shapes@ == type_param_shapes(v@.take(i as int)),
        decreases v@.len() - i,
    {
        row = row.with(type_param(&v[i]));
        assert(v@.take(i + 1).drop_last() =~= v@.take(i as int));
        i += 1;
    }
    assert(v@.take(i as int) =~= v@);
    row.done()
}

// ── Blocks ──────────────────────────────────────────────────────────────────

/// The structure of a block.
pub open spec fn block_shape(block: Seq<Stmt>) -> Shape {
    Shape::List(stmt_shapes(block))
}

/// The structure of a block as text.
pub fn write_block(block: &[Stmt]) -> (r: String)
    ensures
        r@ == written(block_shape(block@)),
{
    let mut row = Row::new();
    let mut i: usize = 0;
    while i < block.len()
        invariant
            i <= block@.len(),
            row.shapes@ == stmt_shapes(block@.take(i as int)),
        decreases block@.len() - i,
    {
        row = row.with(stmt(&block[i]));
        assert(block@.take(i + 1).drop_last() =~= block@.take(i as int));
        i += 1;
    }
    assert(block@.take(i as int) =~= block@);
    let whole = row.done();
    proof {
        use_type_invariant(&whole);
    }
    whole.text
}

} // verus!
