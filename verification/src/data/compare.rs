//! The total order of values.
//!
//! Values of different kinds are ordered by kind: the guard sentinel, null,
//! booleans, numbers, strings, lists, the bottom sentinel. Within a kind,
//! false comes before true, numbers are ordered by what they are worth,
//! strings by code point, and lists item by item.

use crate::data::number::{
    float_order, float_scaled, float_tie, flip, flipped, int_float_order, int_order, int_scaled,
    lemma_float_order_by_pair, lemma_int_order_by_scaled, order_floats, order_int_float,
    order_ints, pair_order, Order,
};
use crate::data::value::{lemma_list_view, values_view, DataValue, Value};
use vstd::prelude::*;
use vstd::std_specs::iter::IteratorSpec;

verus! {

/// The place of the kind of `v` among the kinds.
pub open spec fn kind_rank(v: Value) -> int {
    match v {
        Value::Guard => 0,
        Value::Null => 1,
        Value::Bool(_) => 2,
        Value::Int(_) => 3,
        Value::Float(_) => 3,
        Value::Str(_) => 4,
        Value::List(_) => 5,
        Value::Bot => 6,
    }
}

/// How two strings compare: at the first place where they differ, by code
/// point; a string comes before every longer string that starts with it.
pub open spec fn chars_order(x: Seq<char>, y: Seq<char>) -> Order
    decreases x.len(),
{
    if x.len() == 0 {
        if y.len() == 0 {
            Order::Equal
        } else {
            Order::Less
        }
    } else if y.len() == 0 {
        Order::Greater
    } else if (x[0] as u32) < (y[0] as u32) {
        Order::Less
    } else if (x[0] as u32) > (y[0] as u32) {
        Order::Greater
    } else {
        chars_order(x.drop_first(), y.drop_first())
    }
}

/// How two values compare.
pub open spec fn value_order(a: Value, b: Value) -> Order
    decreases a,
{
    if kind_rank(a) != kind_rank(b) {
        int_order(kind_rank(a), kind_rank(b))
    } else {
        match (a, b) {
            (Value::Bool(x), Value::Bool(y)) => int_order(
                if x {
                    1
                } else {
                    0
                },
                if y {
                    1
                } else {
                    0
                },
            ),
            (Value::Int(x), Value::Int(y)) => int_order(x as int, y as int),
            (Value::Int(x), Value::Float(y)) => int_float_order(x, y),
            (Value::Float(x), Value::Int(y)) => flipped(int_float_order(y, x)),
            (Value::Float(x), Value::Float(y)) => float_order(x, y),
            (Value::Str(x), Value::Str(y)) => chars_order(x, y),
            (Value::List(x), Value::List(y)) => values_order(x, y),
            _ => Order::Equal,
        }
    }
}

/// How two sequences of values compare: at the first place where they
/// differ; a sequence comes before every longer one that starts with it.
pub open spec fn values_order(x: Seq<Value>, y: Seq<Value>) -> Order
    decreases x, x.len(),
{
    if x.len() == 0 {
        if y.len() == 0 {
            Order::Equal
        } else {
            Order::Less
        }
    } else if y.len() == 0 {
        Order::Greater
    } else {
        match value_order(x[0], y[0]) {
            Order::Equal => values_order(x.drop_first(), y.drop_first()),
            o => o,
        }
    }
}

/// Sequences that agree on their first `i` values compare as what is left of
/// them does.
pub proof fn lemma_values_order_skip(x: Seq<Value>, y: Seq<Value>, i: int)
    requires
        0 <= i <= x.len(),
        i <= y.len(),
        forall|k: int| 0 <= k < i ==> value_order(#[trigger] x[k], y[k]) == Order::Equal,
    ensures
        values_order(x, y) == values_order(x.skip(i), y.skip(i)),
    decreases i,
{
    if i == 0 {
        assert(x.skip(0) =~= x);
        assert(y.skip(0) =~= y);
    } else {
        lemma_values_order_skip(x, y, i - 1);
        let xs = x.skip(i - 1);
        let ys = y.skip(i - 1);
        assert(xs[0] == x[i - 1]);
        assert(ys[0] == y[i - 1]);
        assert(xs.drop_first() =~= x.skip(i));
        assert(ys.drop_first() =~= y.skip(i));
    }
}

/// The pair of whole numbers by which a number is ordered: what it is worth,
/// and its place among the numbers that are worth the same. An integer comes
/// before a binary64 number of the same worth.
pub open spec fn number_pair(v: Value) -> (int, int) {
    match v {
        Value::Int(i) => (int_scaled(i), 0),
        Value::Float(f) => (float_scaled(f), float_tie(f)),
        _ => (0, 0),
    }
}

/// Numbers are ordered as their pairs are, and no two numbers have the same
/// pair.
proof fn lemma_number_order(a: Value, b: Value)
    requires
        kind_rank(a) == 3,
        kind_rank(b) == 3,
    ensures
        value_order(a, b) == pair_order(
            number_pair(a).0,
            number_pair(a).1,
            number_pair(b).0,
            number_pair(b).1,
        ),
        number_pair(a) == number_pair(b) ==> a == b,
{
    match (a, b) {
        (Value::Int(x), Value::Int(y)) => {
            lemma_int_order_by_scaled(x, y);
        },
        (Value::Float(x), Value::Float(y)) => {
            lemma_float_order_by_pair(x, y);
        },
        _ => {},
    }
}

proof fn lemma_chars_flip(x: Seq<char>, y: Seq<char>)
    ensures
        chars_order(y, x) == flipped(chars_order(x, y)),
    decreases x.len(),
{
    if x.len() > 0 && y.len() > 0 && (x[0] as u32) == (y[0] as u32) {
        lemma_chars_flip(x.drop_first(), y.drop_first());
    }
}

proof fn lemma_chars_equal(x: Seq<char>, y: Seq<char>)
    requires
        chars_order(x, y) == Order::Equal,
    ensures
        x == y,
    decreases x.len(),
{
    if x.len() > 0 {
        lemma_chars_equal(x.drop_first(), y.drop_first());
        vstd::utf8::char_u32_cast(x[0], x[0] as u32);
        vstd::utf8::char_u32_cast(y[0], y[0] as u32);
        assert(x[0] == y[0]);
        assert(x =~= seq![x[0]] + x.drop_first());
        assert(y =~= seq![y[0]] + y.drop_first());
    } else {
        assert(x =~= y);
    }
}

proof fn lemma_chars_transitive(x: Seq<char>, y: Seq<char>, z: Seq<char>)
    requires
        chars_order(x, y) != Order::Greater,
        chars_order(y, z) != Order::Greater,
    ensures
        chars_order(x, z) != Order::Greater,
        chars_order(x, y) == Order::Less || chars_order(y, z) == Order::Less ==> chars_order(x, z)
            == Order::Less,
    decreases x.len(),
{
    if x.len() > 0 && y.len() > 0 && z.len() > 0 && (x[0] as u32) == (y[0] as u32) && (y[0] as u32)
        == (z[0] as u32) {
        lemma_chars_transitive(x.drop_first(), y.drop_first(), z.drop_first());
    }
}

/// The order of values reads the same from both sides: if `a` comes before
/// `b` then `b` comes after `a`, and the other way round.
pub proof fn law_order_flips(a: Value, b: Value)
    ensures
        value_order(b, a) == flipped(value_order(a, b)),
    decreases a,
{
    if kind_rank(a) == kind_rank(b) {
        match (a, b) {
            (Value::Str(x), Value::Str(y)) => {
                lemma_chars_flip(x, y);
            },
            (Value::List(x), Value::List(y)) => {
                lemma_values_flip(x, y);
            },
            _ => {
                if kind_rank(a) == 3 {
                    lemma_number_order(a, b);
                    lemma_number_order(b, a);
                }
            },
        }
    }
}

/// The order of sequences of values reads the same from both sides.
pub proof fn lemma_values_flip(x: Seq<Value>, y: Seq<Value>)
    ensures
        values_order(y, x) == flipped(values_order(x, y)),
    decreases x, x.len(),
{
    if x.len() > 0 && y.len() > 0 {
        law_order_flips(x[0], y[0]);
        lemma_values_flip(x.drop_first(), y.drop_first());
    }
}

/// Every value is equal to itself in the order.
pub proof fn law_order_reflexive(a: Value)
    ensures
        value_order(a, a) == Order::Equal,
{
    law_order_flips(a, a);
}

/// Only a value itself is equal to it in the order.
pub proof fn law_order_tells_apart(a: Value, b: Value)
    requires
        value_order(a, b) == Order::Equal,
    ensures
        a == b,
    decreases a,
{
    match (a, b) {
        (Value::Str(x), Value::Str(y)) => {
            lemma_chars_equal(x, y);
        },
        (Value::List(x), Value::List(y)) => {
            lemma_values_equal(x, y);
        },
        _ => {
            if kind_rank(a) == 3 {
                lemma_number_order(a, b);
            }
        },
    }
}

/// Only a sequence itself is equal to it in the order.
pub proof fn lemma_values_equal(x: Seq<Value>, y: Seq<Value>)
    requires
        values_order(x, y) == Order::Equal,
    ensures
        x == y,
    decreases x, x.len(),
{
    if x.len() > 0 {
        law_order_tells_apart(x[0], y[0]);
        lemma_values_equal(x.drop_first(), y.drop_first());
        assert(x =~= seq![x[0]] + x.drop_first());
        assert(y =~= seq![y[0]] + y.drop_first());
    } else {
        assert(x =~= y);
    }
}

/// The order of values is transitive: what does not come after a value that
/// does not come after a third does not come after the third, and comes
/// before it if one of the two steps is strict.
pub proof fn law_order_transitive(a: Value, b: Value, c: Value)
    requires
        value_order(a, b) != Order::Greater,
        value_order(b, c) != Order::Greater,
    ensures
        value_order(a, c) != Order::Greater,
        value_order(a, b) == Order::Less || value_order(b, c) == Order::Less ==> value_order(a, c)
            == Order::Less,
    decreases a,
{
    if kind_rank(a) == kind_rank(b) && kind_rank(b) == kind_rank(c) {
        match (a, b, c) {
            (Value::Str(x), Value::Str(y), Value::Str(z)) => {
                lemma_chars_transitive(x, y, z);
            },
            (Value::List(x), Value::List(y), Value::List(z)) => {
                lemma_values_transitive(x, y, z);
            },
            _ => {
                if kind_rank(a) == 3 {
                    lemma_number_order(a, b);
                    lemma_number_order(b, c);
                    lemma_number_order(a, c);
                }
            },
        }
    }
}

/// The order of sequences of values is transitive.
pub proof fn lemma_values_transitive(x: Seq<Value>, y: Seq<Value>, z: Seq<Value>)
    requires
        values_order(x, y) != Order::Greater,
        values_order(y, z) != Order::Greater,
    ensures
        values_order(x, z) != Order::Greater,
        values_order(x, y) == Order::Less || values_order(y, z) == Order::Less ==> values_order(x, z)
            == Order::Less,
    decreases x, x.len(),
{
    if x.len() > 0 && y.len() > 0 && z.len() > 0 {
        law_order_transitive(x[0], y[0], z[0]);
        if value_order(x[0], y[0]) == Order::Equal && value_order(y[0], z[0]) == Order::Equal {
            lemma_values_transitive(x.drop_first(), y.drop_first(), z.drop_first());
        }
    }
}

fn code_point(c: char) -> (r: u32)
    ensures
        r == c as u32,
{
    c as u32
}

/// How two strings compare.
pub fn order_strs(a: &str, b: &str) -> (r: Order)
    ensures
        r == chars_order(a@, b@),
{
    broadcast use vstd::string::group_string_axioms;

    let mut ia = a.chars();
    let mut ib = b.chars();
    loop
        invariant
            chars_order(a@, b@) == chars_order(ia.remaining(), ib.remaining()),
            ia.decrease() is Some,
        decreases ia.decrease()->0,
    {
        let ca = ia.next();
        let cb = ib.next();
        match (ca, cb) {
            (None, None) => {
                return Order::Equal;
            },
            (None, Some(_)) => {
                return Order::Less;
            },
            (Some(_), None) => {
                return Order::Greater;
            },
            (Some(x), Some(y)) => {
                let px = code_point(x);
                let py = code_point(y);
                if px < py {
                    return Order::Less;
                } else if px > py {
                    return Order::Greater;
                }
            },
        }
    }
}

fn rank(v: &DataValue) -> (r: u8)
    ensures
        r == kind_rank(v@),
{
    match v {
        DataValue::Guard => 0,
        DataValue::Null => 1,
        DataValue::Bool(_) => 2,
        DataValue::Int(_) => 3,
        DataValue::Float(_) => 3,
        DataValue::Str(_) => 4,
        DataValue::List(_) => 5,
        DataValue::Bot => 6,
    }
}

impl DataValue {
    /// How this value compares with `other`.
    pub fn compare(&self, other: &DataValue) -> (r: Order)
        ensures
            r == value_order(self@, other@),
        decreases self, 0nat,
    {
        let ra = rank(self);
        let rb = rank(other);
        if ra < rb {
            return Order::Less;
        }
        if ra > rb {
            return Order::Greater;
        }
        match (self, other) {
            (DataValue::Bool(x), DataValue::Bool(y)) => {
                if *x == *y {
                    Order::Equal
                } else if *y {
                    Order::Less
                } else {
                    Order::Greater
                }
            },
            (DataValue::Int(x), DataValue::Int(y)) => order_ints(*x, *y),
            (DataValue::Int(x), DataValue::Float(y)) => order_int_float(*x, *y),
            (DataValue::Float(x), DataValue::Int(y)) => flip(order_int_float(*y, *x)),
            (DataValue::Float(x), DataValue::Float(y)) => order_floats(*x, *y),
            (DataValue::Str(x), DataValue::Str(y)) => order_strs(x.as_str(), y.as_str()),
            (DataValue::List(x), DataValue::List(y)) => {
                proof {
                    lemma_list_view(*x);
                    lemma_list_view(*y);
                }
                compare_values(x, y)
            },
            _ => Order::Equal,
        }
    }
}

/// How two rows of values compare.
pub fn compare_values(x: &Vec<DataValue>, y: &Vec<DataValue>) -> (r: Order)
    ensures
        r == values_order(values_view(x@), values_view(y@)),
    decreases x, 1nat,
{
    let ghost xs = values_view(x@);
    let ghost ys = values_view(y@);
    let mut i: usize = 0;
    while i < x.len() && i < y.len()
        invariant
            i <= x.len(),
            i <= y.len(),
            xs == values_view(x@),
            ys == values_view(y@),
            forall|k: int| 0 <= k < i ==> value_order(#[trigger] xs[k], ys[k]) == Order::Equal,
        decreases x.len() - i,
    {
        let o = x[i].compare(&y[i]);
        match o {
            Order::Equal => {},
            _ => {
                proof {
                    lemma_values_order_skip(xs, ys, i as int);
                    assert(xs.skip(i as int)[0] == xs[i as int]);
                    assert(ys.skip(i as int)[0] == ys[i as int]);
                }
                return o;
            },
        }
        i += 1;
    }
    proof {
        lemma_values_order_skip(xs, ys, i as int);
    }
    if i < y.len() {
        Order::Less
    } else if i < x.len() {
        Order::Greater
    } else {
        Order::Equal
    }
}

} // verus!
