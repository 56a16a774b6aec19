//! The order of keys.
//!
//! The storage engine keeps its keys sorted by a comparator that it is handed.
//! The byte order of two keys says nothing about the tuples in them, since the
//! header comes first; the comparator therefore reads the keys: it compares
//! the partition prefixes and then the values one by one. Range scans and
//! range deletes are right only because of this.

use crate::data::compare::{
    law_order_flips, law_order_transitive, lemma_values_equal, lemma_values_flip,
    lemma_values_transitive, value_order, values_order,
};
use crate::data::number::{flipped, int_order, Order};
use crate::data::tuple::{
    all_read, encode_key, key_items, key_prefix, law_key_roundtrip, EncodedTuple, Fault,
};
use crate::data::value::Value;
use std::cmp::Ordering;
use vstd::prelude::*;

verus! {

/// How two prefixes compare; a key too short to have one comes first.
pub open spec fn prefix_order(p: Option<u32>, q: Option<u32>) -> Order {
    match (p, q) {
        (Some(x), Some(y)) => int_order(x as int, y as int),
        (None, Some(_)) => Order::Less,
        (Some(_), None) => Order::Greater,
        (None, None) => Order::Equal,
    }
}

/// How two items read from keys compare: values by their order, and a fault
/// before every value.
pub open spec fn item_order(x: Result<Value, Fault>, y: Result<Value, Fault>) -> Order {
    match (x, y) {
        (Ok(v), Ok(w)) => value_order(v, w),
        (Err(_), Ok(_)) => Order::Less,
        (Ok(_), Err(_)) => Order::Greater,
        (Err(_), Err(_)) => Order::Equal,
    }
}

/// How two sequences of items compare: at the first place where they
/// differ; a sequence comes before every longer one that starts with it.
pub open spec fn items_order(x: Seq<Result<Value, Fault>>, y: Seq<Result<Value, Fault>>) -> Order
    decreases x.len(),
{
    if x.len() == 0 {
        if y.len() == 0 {
            Order::Equal
        } else {
            Order::Less
        }
    } else if y.len() == 0 {
        Order::Greater
    } else {
        match item_order(x[0], y[0]) {
            Order::Equal => items_order(x.drop_first(), y.drop_first()),
            o => o,
        }
    }
}

/// How two keys compare: by prefix, then by what walking over them yields.
pub open spec fn key_order(a: Seq<u8>, b: Seq<u8>) -> Order {
    match prefix_order(key_prefix(a), key_prefix(b)) {
        Order::Equal => items_order(key_items(a), key_items(b)),
        o => o,
    }
}

/// The same order, in the words of the standard library.
pub open spec fn std_order(o: Order) -> Ordering {
    match o {
        Order::Less => Ordering::Less,
        Order::Equal => Ordering::Equal,
        Order::Greater => Ordering::Greater,
    }
}

/// The sign that stands for an order: -1, 0 or 1.
pub open spec fn order_sign(o: Order) -> i8 {
    match o {
        Order::Less => -1i8,
        Order::Equal => 0i8,
        Order::Greater => 1i8,
    }
}

/// Sequences that agree on their first `i` items compare as what is left of
/// them does.
proof fn lemma_items_order_skip(
    x: Seq<Result<Value, Fault>>,
    y: Seq<Result<Value, Fault>>,
    i: int,
)
    requires
        0 <= i <= x.len(),
        i <= y.len(),
        forall|k: int| 0 <= k < i ==> item_order(#[trigger] x[k], y[k]) == Order::Equal,
    ensures
        items_order(x, y) == items_order(x.skip(i), y.skip(i)),
    decreases i,
{
    if i == 0 {
        assert(x.skip(0) =~= x);
        assert(y.skip(0) =~= y);
    } else {
        lemma_items_order_skip(x, y, i - 1);
        let xs = x.skip(i - 1);
        let ys = y.skip(i - 1);
        assert(xs[0] == x[i - 1]);
        assert(ys[0] == y[i - 1]);
        assert(xs.drop_first() =~= x.skip(i));
        assert(ys.drop_first() =~= y.skip(i));
    }
}

/// Items that were all read without a fault compare as their values do.
proof fn lemma_items_order_of_values(
    ix: Seq<Result<Value, Fault>>,
    x: Seq<Value>,
    iy: Seq<Result<Value, Fault>>,
    y: Seq<Value>,
)
    requires
        all_read(ix, x),
        all_read(iy, y),
    ensures
        items_order(ix, iy) == values_order(x, y),
    decreases x.len(),
{
    if x.len() > 0 && y.len() > 0 {
        assert(ix[0] == Ok::<Value, Fault>(x[0]));
        assert(iy[0] == Ok::<Value, Fault>(y[0]));
        assert(all_read(ix.drop_first(), x.drop_first())) by {
            assert forall|k: int| 0 <= k < ix.drop_first().len() implies #[trigger] ix.drop_first()[k]
                == Ok::<Value, Fault>(x.drop_first()[k]) by {
                assert(ix.drop_first()[k] == ix[k + 1]);
            }
        }
        assert(all_read(iy.drop_first(), y.drop_first())) by {
            assert forall|k: int| 0 <= k < iy.drop_first().len() implies #[trigger] iy.drop_first()[k]
                == Ok::<Value, Fault>(y.drop_first()[k]) by {
                assert(iy.drop_first()[k] == iy[k + 1]);
            }
        }
        lemma_items_order_of_values(ix.drop_first(), x.drop_first(), iy.drop_first(), y.drop_first());
    }
}

/// Order preservation: the keys of two tuples compare as the partition
/// prefixes do, and within one partition as the tuples do value by value, as
/// long as both keys are short enough for their 32-bit offsets.
pub proof fn law_key_order(p: u32, x: Seq<Value>, q: u32, y: Seq<Value>)
    requires
        encode_key(p, x).len() <= u32::MAX,
        encode_key(q, y).len() <= u32::MAX,
    ensures
        key_order(encode_key(p, x), encode_key(q, y)) == if p == q {
            values_order(x, y)
        } else {
            int_order(p as int, q as int)
        },
{
    law_key_roundtrip(p, x);
    law_key_roundtrip(q, y);
    lemma_items_order_of_values(
        key_items(encode_key(p, x)),
        x,
        key_items(encode_key(q, y)),
        y,
    );
}

/// Keys of tuples are equal in the order only if prefix and tuple are the
/// same: the order can tell any two rows of any two partitions apart.
pub proof fn law_key_order_tells_apart(p: u32, x: Seq<Value>, q: u32, y: Seq<Value>)
    requires
        encode_key(p, x).len() <= u32::MAX,
        encode_key(q, y).len() <= u32::MAX,
        key_order(encode_key(p, x), encode_key(q, y)) == Order::Equal,
    ensures
        p == q,
        x == y,
{
    law_key_order(p, x, q, y);
    if p == q {
        lemma_values_equal(x, y);
    }
}

/// The order of the keys of tuples reads the same from both sides and is
/// transitive, so the keys of tuples are totally ordered.
pub proof fn law_key_order_total(
    p: u32,
    x: Seq<Value>,
    q: u32,
    y: Seq<Value>,
    r: u32,
    z: Seq<Value>,
)
    requires
        encode_key(p, x).len() <= u32::MAX,
        encode_key(q, y).len() <= u32::MAX,
        encode_key(r, z).len() <= u32::MAX,
    ensures
        key_order(encode_key(q, y), encode_key(p, x)) == flipped(
            key_order(encode_key(p, x), encode_key(q, y)),
        ),
        key_order(encode_key(p, x), encode_key(q, y)) != Order::Greater && key_order(
            encode_key(q, y),
            encode_key(r, z),
        ) != Order::Greater ==> key_order(encode_key(p, x), encode_key(r, z)) != Order::Greater,
{
    law_key_order(p, x, q, y);
    law_key_order(q, y, p, x);
    law_key_order(q, y, r, z);
    law_key_order(p, x, r, z);
    lemma_values_flip(x, y);
    if p == q && q == r && values_order(x, y) != Order::Greater && values_order(y, z)
        != Order::Greater {
        lemma_values_transitive(x, y, z);
    }
}

proof fn lemma_items_flip(x: Seq<Result<Value, Fault>>, y: Seq<Result<Value, Fault>>)
    ensures
        items_order(y, x) == flipped(items_order(x, y)),
    decreases x.len(),
{
    if x.len() > 0 && y.len() > 0 {
        if let (Ok(v), Ok(w)) = (x[0], y[0]) {
            law_order_flips(v, w);
        }
        lemma_items_flip(x.drop_first(), y.drop_first());
    }
}

proof fn lemma_items_transitive(
    x: Seq<Result<Value, Fault>>,
    y: Seq<Result<Value, Fault>>,
    z: Seq<Result<Value, Fault>>,
)
    requires
        items_order(x, y) != Order::Greater,
        items_order(y, z) != Order::Greater,
    ensures
        items_order(x, z) != Order::Greater,
        items_order(x, y) == Order::Less || items_order(y, z) == Order::Less ==> items_order(x, z)
            == Order::Less,
    decreases x.len(),
{
    if x.len() > 0 && y.len() > 0 && z.len() > 0 {
        if let (Ok(u), Ok(v), Ok(w)) = (x[0], y[0], z[0]) {
            law_order_transitive(u, v, w);
        }
        if item_order(x[0], y[0]) == Order::Equal && item_order(y[0], z[0]) == Order::Equal {
            lemma_items_transitive(x.drop_first(), y.drop_first(), z.drop_first());
        }
    }
}

/// The order of keys is consistent on all byte strings, whether they are
/// keys of tuples or not: it reads the same from both sides and is
/// transitive. A store that sorts by it never meets a contradiction.
pub proof fn law_key_order_consistent(a: Seq<u8>, b: Seq<u8>, c: Seq<u8>)
    ensures
        key_order(b, a) == flipped(key_order(a, b)),
        key_order(a, a) == Order::Equal,
        key_order(a, b) != Order::Greater && key_order(b, c) != Order::Greater ==> key_order(a, c)
            != Order::Greater,
        key_order(a, b) != Order::Greater && key_order(b, c) != Order::Greater && (key_order(a, b)
            == Order::Less || key_order(b, c) == Order::Less) ==> key_order(a, c) == Order::Less,
{
    lemma_items_flip(key_items(a), key_items(b));
    lemma_items_flip(key_items(a), key_items(a));
    if prefix_order(key_prefix(a), key_prefix(b)) == Order::Equal && prefix_order(
        key_prefix(b),
        key_prefix(c),
    ) == Order::Equal && items_order(key_items(a), key_items(b)) != Order::Greater && items_order(
        key_items(b),
        key_items(c),
    ) != Order::Greater {
        lemma_items_transitive(key_items(a), key_items(b), key_items(c));
    }
}

/// How the keys `a` and `b` compare.
pub fn compare(a: &[u8], b: &[u8]) -> (r: Order)
    ensures
        r == key_order(a@, b@),
{
    let ta = EncodedTuple(a);
    let tb = EncodedTuple(b);
    match (ta.prefix(), tb.prefix()) {
        (Ok(p), Ok(q)) => {
            if p < q {
                return Order::Less;
            }
            if p > q {
                return Order::Greater;
            }
        },
        (Err(_), Ok(_)) => {
            return Order::Less;
        },
        (Ok(_), Err(_)) => {
            return Order::Greater;
        },
        (Err(_), Err(_)) => {},
    }
    let ghost xs = key_items(a@);
    let ghost ys = key_items(b@);
    let mut ia = ta.iter();
    let mut ib = tb.iter();
    loop
        invariant
            prefix_order(key_prefix(a@), key_prefix(b@)) == Order::Equal,
            ia.key() == a@,
            ib.key() == b@,
            xs == key_items(a@),
            ys == key_items(b@),
            ia.yielded() == ib.yielded(),
            ia.yielded() <= xs.len(),
            ib.yielded() <= ys.len(),
            forall|k: int|
                0 <= k < ia.yielded() ==> item_order(#[trigger] xs[k], ys[k]) == Order::Equal,
        decreases xs.len() - ia.yielded(),
    {
        let ghost i = ia.yielded() as int;
        proof {
            lemma_items_order_skip(xs, ys, i);
            if i < xs.len() {
                assert(xs.skip(i)[0] == xs[i]);
            }
            if i < ys.len() {
                assert(ys.skip(i)[0] == ys[i]);
            }
        }
        let o = match (ia.next(), ib.next()) {
            (None, None) => {
                return Order::Equal;
            },
            (None, Some(_)) => {
                return Order::Less;
            },
            (Some(_), None) => {
                return Order::Greater;
            },
            (Some(Ok(v)), Some(Ok(w))) => v.compare(&w),
            (Some(Err(_)), Some(Ok(_))) => Order::Less,
            (Some(Ok(_)), Some(Err(_))) => Order::Greater,
            (Some(Err(_)), Some(Err(_))) => Order::Equal,
        };
        assert(o == item_order(xs[i], ys[i]));
        match o {
            Order::Equal => {},
            _ => {
                return o;
            },
        }
    }
}

/// How the keys `a` and `b` compare, in the words of the standard library.
pub fn compare_tuple_keys(a: &[u8], b: &[u8]) -> (r: Ordering)
    ensures
        r == std_order(key_order(a@, b@)),
{
    match compare(a, b) {
        Order::Less => Ordering::Less,
        Order::Equal => Ordering::Equal,
        Order::Greater => Ordering::Greater,
    }
}

/// How the keys `a` and `b` compare, as the sign that the storage engine
/// asks of its comparator.
pub fn rusty_scratch_cmp(a: &[u8], b: &[u8]) -> (r: i8)
    ensures
        r == order_sign(key_order(a@, b@)),
{
    match compare(a, b) {
        Order::Less => -1i8,
        Order::Equal => 0i8,
        Order::Greater => 1i8,
    }
}

} // verus!
