//! Scalar values of the engine and their total order.
use vstd::prelude::*;
use crate::bytes::{
    compare_bytes, flip, int_order, lemma_lex_order_equal, lemma_lex_order_flip, lemma_lex_order_trans,
    lex_order, Order,
};

verus! {

/// A scalar SQL value, generic over the representation of text.
#[derive(Debug, Clone, PartialEq)]
pub enum Val<S> {
    Null,
    Bool(bool),
    Int(i64),
    /// A decimal literal, kept as its canonical numeral (`digits.digits`, no
    /// redundant leading zeros in the integer part nor trailing zeros in the fraction).
    Float(S),
    Text(S),
}

/// A value as the engine stores it.
pub type Value = Val<String>;

/// The mathematical model of a [`Value`].
pub type ValueV = Val<Seq<char>>;

impl View for Val<String> {
    type V = ValueV;

    open spec fn view(&self) -> ValueV {
        match self {
            Val::Null => Val::Null,
            Val::Bool(b) => Val::Bool(*b),
            Val::Int(i) => Val::Int(*i),
            Val::Float(s) => Val::Float(s@),
            Val::Text(s) => Val::Text(s@),
        }
    }
}

/// The view of a row of values.
pub open spec fn row_view(r: Seq<Value>) -> Seq<ValueV> {
    r.map_values(|v: Value| v@)
}

/// The view of a sequence of rows.
pub open spec fn rows_view(rs: Seq<Vec<Value>>) -> Seq<Seq<ValueV>> {
    rs.map_values(|r: Vec<Value>| row_view(r@))
}

/// The UTF-8 bytes of a text.
pub open spec fn utf8(s: Seq<char>) -> Seq<u8> {
    vstd::utf8::encode_utf8(s)
}

/// Position of the first `.` in a byte string (its length when there is none).
pub open spec fn point_pos(b: Seq<u8>) -> int
    decreases b.len(),
{
    if b.len() == 0 {
        0
    } else if b[0] == 46u8 {
        0
    } else {
        1 + point_pos(b.drop_first())
    }
}

/// Order of two decimal numerals: the one with the longer integer part is larger,
/// otherwise the numerals compare digit by digit.
pub open spec fn float_order(a: Seq<char>, b: Seq<char>) -> Order {
    let (x, y) = (utf8(a), utf8(b));
    if point_pos(x) != point_pos(y) {
        int_order(point_pos(x), point_pos(y))
    } else {
        lex_order(x, y)
    }
}

/// The rank of a value's kind: `NULL < BOOL < INT < FLOAT < TEXT`.
pub open spec fn kind_rank(v: ValueV) -> int {
    match v {
        Val::Null => 0,
        Val::Bool(_) => 1,
        Val::Int(_) => 2,
        Val::Float(_) => 3,
        Val::Text(_) => 4,
    }
}

/// The total order on values: first by kind, then by payload
/// (`false < true`, integers numerically, decimals numerically, texts by their UTF-8 bytes).
pub open spec fn value_order(a: ValueV, b: ValueV) -> Order {
    if kind_rank(a) != kind_rank(b) {
        int_order(kind_rank(a), kind_rank(b))
    } else {
        match (a, b) {
            (Val::Bool(x), Val::Bool(y)) => int_order(
                if x { 1int } else { 0int },
                if y { 1int } else { 0int },
            ),
            (Val::Int(x), Val::Int(y)) => int_order(x as int, y as int),
            (Val::Float(x), Val::Float(y)) => float_order(x, y),
            (Val::Text(x), Val::Text(y)) => lex_order(utf8(x), utf8(y)),
            _ => Order::Equal,
        }
    }
}

/// A shorter byte string that begins the other comes first.
proof fn lemma_lex_order_prefix(a: Seq<u8>, b: Seq<u8>)
    requires
        a.len() < b.len(),
        b.take(a.len() as int) == a,
    ensures
        lex_order(a, b) == Order::Less,
    decreases a.len(),
{
    if a.len() > 0 {
        assert(b[0] == b.take(a.len() as int)[0]);
        assert(b.drop_first().take(a.drop_first().len() as int) =~= a.drop_first()) by {
            assert forall|k: int| 0 <= k < a.drop_first().len() implies
                #[trigger] b.drop_first().take(a.drop_first().len() as int)[k] == a.drop_first()[k] by {
                assert(b.take(a.len() as int)[k + 1] == a[k + 1]);
            }
        }
        lemma_lex_order_prefix(a.drop_first(), b.drop_first());
    }
}

/// Where two byte strings first differ, the smaller byte comes first.
proof fn lemma_lex_order_first_difference(a: Seq<u8>, b: Seq<u8>, i: int)
    requires
        0 <= i < a.len(),
        i < b.len(),
        a.take(i) == b.take(i),
        a[i] < b[i],
    ensures
        lex_order(a, b) == Order::Less,
    decreases i,
{
    if i > 0 {
        assert(a[0] == a.take(i)[0] && b[0] == b.take(i)[0]);
        assert(a.drop_first().take(i - 1) =~= b.drop_first().take(i - 1)) by {
            assert forall|k: int| 0 <= k < i - 1 implies #[trigger] a.drop_first().take(i - 1)[k] == b.drop_first().take(i - 1)[k] by {
                assert(a.take(i)[k + 1] == a[k + 1] && b.take(i)[k + 1] == b[k + 1]);
                assert(a.take(i)[k + 1] == b.take(i)[k + 1]);
                assert(a.drop_first().take(i - 1)[k] == a[k + 1]);
                assert(b.drop_first().take(i - 1)[k] == b[k + 1]);
            }
        }
        lemma_lex_order_first_difference(a.drop_first(), b.drop_first(), i - 1);
    }
}

/// Integers compare as numbers.
pub proof fn law_int_order(x: i64, y: i64)
    ensures
        (value_order(Val::Int(x), Val::Int(y)) == Order::Less) <==> x < y,
        (value_order(Val::Int(x), Val::Int(y)) == Order::Equal) <==> x == y,
        (value_order(Val::Int(x), Val::Int(y)) == Order::Greater) <==> x > y,
{
}

/// `FALSE` comes before `TRUE`.
pub proof fn law_bool_order()
    ensures
        value_order(Val::Bool(false), Val::Bool(true)) == Order::Less,
        value_order(Val::Bool(true), Val::Bool(false)) == Order::Greater,
{
}

/// Texts compare by their UTF-8 bytes, lexicographically, whatever their
/// lengths: the same bytes are equal, a proper prefix comes first, and
/// otherwise the first differing byte decides (so `"Alice"` comes before `"Bob"`).
pub proof fn law_text_order(x: Seq<char>, y: Seq<char>)
    ensures
        utf8(x) == utf8(y) ==> value_order(Val::Text(x), Val::Text(y)) == Order::Equal,
        utf8(x).len() < utf8(y).len() && utf8(y).take(utf8(x).len() as int) == utf8(x)
            ==> value_order(Val::Text(x), Val::Text(y)) == Order::Less,
        utf8(y).len() < utf8(x).len() && utf8(x).take(utf8(y).len() as int) == utf8(y)
            ==> value_order(Val::Text(x), Val::Text(y)) == Order::Greater,
        forall|i: int| #![trigger utf8(x)[i], utf8(y)[i]]
            0 <= i < utf8(x).len() && i < utf8(y).len() && utf8(x).take(i) == utf8(y).take(i)
            ==> ((utf8(x)[i] < utf8(y)[i] ==> value_order(Val::Text(x), Val::Text(y)) == Order::Less)
                && (utf8(x)[i] > utf8(y)[i] ==> value_order(Val::Text(x), Val::Text(y)) == Order::Greater)),
{
    let a = utf8(x);
    let b = utf8(y);
    lemma_lex_order_equal(a, b);
    lemma_lex_order_flip(a, b);
    if a.len() < b.len() && b.take(a.len() as int) == a {
        lemma_lex_order_prefix(a, b);
    }
    if b.len() < a.len() && a.take(b.len() as int) == b {
        lemma_lex_order_prefix(b, a);
    }
    assert forall|i: int| #![trigger a[i], b[i]]
        0 <= i < a.len() && i < b.len() && a.take(i) == b.take(i)
        implies ((a[i] < b[i] ==> lex_order(a, b) == Order::Less)
            && (a[i] > b[i] ==> lex_order(a, b) == Order::Greater)) by {
        if a[i] < b[i] {
            lemma_lex_order_first_difference(a, b, i);
        }
        if a[i] > b[i] {
            lemma_lex_order_first_difference(b, a, i);
        }
    }
}

/// Swapping the operands reverses the order of values.
pub proof fn lemma_value_order_flip(a: ValueV, b: ValueV)
    ensures
        value_order(a, b) == flip(value_order(b, a)),
{
    match (a, b) {
        (Val::Float(x), Val::Float(y)) => lemma_lex_order_flip(utf8(x), utf8(y)),
        (Val::Text(x), Val::Text(y)) => lemma_lex_order_flip(utf8(x), utf8(y)),
        _ => {},
    }
}

/// Two values are equal in the order exactly when they are the same value.
pub proof fn lemma_value_order_equal(a: ValueV, b: ValueV)
    ensures
        (value_order(a, b) == Order::Equal) <==> a == b,
{
    match (a, b) {
        (Val::Float(x), Val::Float(y)) => {
            lemma_lex_order_equal(utf8(x), utf8(y));
            vstd::utf8::encode_utf8_decode_utf8(x);
            vstd::utf8::encode_utf8_decode_utf8(y);
        },
        (Val::Text(x), Val::Text(y)) => {
            lemma_lex_order_equal(utf8(x), utf8(y));
            vstd::utf8::encode_utf8_decode_utf8(x);
            vstd::utf8::encode_utf8_decode_utf8(y);
        },
        _ => {},
    }
}

/// The order of values is transitive, strictly when either step is strict.
pub proof fn lemma_value_order_trans(a: ValueV, b: ValueV, c: ValueV)
    requires
        value_order(a, b) != Order::Greater,
        value_order(b, c) != Order::Greater,
    ensures
        value_order(a, c) != Order::Greater,
        (value_order(a, b) == Order::Less || value_order(b, c) == Order::Less) ==> value_order(a, c) == Order::Less,
{
    if kind_rank(a) == kind_rank(b) && kind_rank(b) == kind_rank(c) {
        match (a, b, c) {
            (Val::Float(x), Val::Float(y), Val::Float(z)) => {
                if point_pos(utf8(x)) == point_pos(utf8(y)) && point_pos(utf8(y)) == point_pos(utf8(z)) {
                    lemma_lex_order_trans(utf8(x), utf8(y), utf8(z));
                }
            },
            (Val::Text(x), Val::Text(y), Val::Text(z)) => lemma_lex_order_trans(utf8(x), utf8(y), utf8(z)),
            _ => {},
        }
    }
}

/// Makes an independent copy of a value.
pub fn copy_value(v: &Value) -> (r: Value)
    ensures
        r@ == v@,
{
    match v {
        Val::Null => Val::Null,
        Val::Bool(b) => Val::Bool(*b),
        Val::Int(i) => Val::Int(*i),
        Val::Float(s) => Val::Float(s.clone()),
        Val::Text(s) => Val::Text(s.clone()),
    }
}

/// Makes an independent copy of a row.
pub fn copy_row(r: &Vec<Value>) -> (out: Vec<Value>)
    ensures
        row_view(out@) == row_view(r@),
{
    let mut out: Vec<Value> = Vec::new();
    let mut i: usize = 0;
    while i < r.len()
        invariant
            i <= r@.len(),
            out@.len() == i,
            forall|j: int| 0 <= j < i ==> (#[trigger] out@[j])@ == r@[j]@,
        decreases r@.len() - i,
    {
        out.push(copy_value(&r[i]));
        i = i + 1;
    }
    assert(row_view(out@) =~= row_view(r@));
    out
}

/// Makes an independent copy of a sequence of rows.
pub fn copy_rows(rs: &Vec<Vec<Value>>) -> (out: Vec<Vec<Value>>)
    ensures
        rows_view(out@) == rows_view(rs@),
{
    let mut out: Vec<Vec<Value>> = Vec::new();
    let mut i: usize = 0;
    while i < rs.len()
        invariant
            i <= rs@.len(),
            out@.len() == i,
            forall|j: int| 0 <= j < i ==> row_view((#[trigger] out@[j])@) == row_view(rs@[j]@),
        decreases rs@.len() - i,
    {
        out.push(copy_row(&rs[i]));
        i = i + 1;
    }
    assert(rows_view(out@) =~= rows_view(rs@));
    out
}

/// Position of the first `.` in `b`.
fn find_point(b: &[u8]) -> (p: usize)
    ensures
        p as int == point_pos(b@),
{
    let mut i: usize = 0;
    assert(b@.skip(0) =~= b@);
    while i < b.len() && b[i] != 46u8
        invariant
            i <= b@.len(),
            point_pos(b@) == i + point_pos(b@.skip(i as int)),
        decreases b@.len() - i,
    {
        assert(b@.skip(i as int).drop_first() =~= b@.skip(i + 1));
        i = i + 1;
    }
    i
}

fn kind_rank_of(v: &Value) -> (r: u8)
    ensures
        r as int == kind_rank(v@),
{
    match v {
        Val::Null => 0,
        Val::Bool(_) => 1,
        Val::Int(_) => 2,
        Val::Float(_) => 3,
        Val::Text(_) => 4,
    }
}

fn order_u(a: usize, b: usize) -> (r: Order)
    ensures
        r == int_order(a as int, b as int),
{
    if a < b { Order::Less } else if a > b { Order::Greater } else { Order::Equal }
}

/// Compares two values under [`value_order`].
pub fn compare_values(a: &Value, b: &Value) -> (r: Order)
    ensures
        r == value_order(a@, b@),
{
    let ra = kind_rank_of(a);
    let rb = kind_rank_of(b);
    if ra != rb {
        return order_u(ra as usize, rb as usize);
    }
    match (a, b) {
        (Val::Bool(x), Val::Bool(y)) => {
            let xi: usize = if *x { 1 } else { 0 };
            let yi: usize = if *y { 1 } else { 0 };
            order_u(xi, yi)
        },
        (Val::Int(x), Val::Int(y)) => {
            if *x < *y { Order::Less } else if *x > *y { Order::Greater } else { Order::Equal }
        },
        (Val::Float(x), Val::Float(y)) => {
            let bx = x.as_str().as_bytes();
            let by = y.as_str().as_bytes();
            let px = find_point(bx);
            let py = find_point(by);
            if px != py {
                order_u(px, py)
            } else {
                compare_bytes(bx, by)
            }
        },
        (Val::Text(x), Val::Text(y)) => compare_bytes(x.as_str().as_bytes(), y.as_str().as_bytes()),
        _ => Order::Equal,
    }
}

} // verus!
