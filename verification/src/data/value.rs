//! The value domain and the byte form of a single value.
//!
//! A value is written as one tag byte followed by a payload whose length the
//! tag (and, for strings and lists, a 32-bit count) determines, so a value can
//! be read back from the front of any byte string that starts with it.

use crate::data::bytes::{
    lemma_i64_bits_roundtrip, lemma_u32_be_roundtrip, lemma_u64_be_roundtrip, push_u32_be,
    push_u64_be, read_u32_be, read_u64_be, u32_be, u32_from_be, u64_be, u64_from_be,
};
use crate::data::text::{str_from_utf8, Text};
use vstd::prelude::*;
use vstd::slice::slice_subrange;
use vstd::utf8::*;

verus! {

/// The mathematical value that a `DataValue` stands for.
pub enum Value {
    /// Sentinel below every other value.
    Guard,
    Null,
    Bool(bool),
    Int(i64),
    /// A binary64 number, given by its bit pattern.
    Float(u64),
    Str(Seq<char>),
    List(Seq<Value>),
    /// Sentinel above every other value.
    Bot,
}

/// A value stored in a relation or used as part of a key.
#[derive(Debug, PartialEq, Eq)]
pub enum DataValue {
    /// Sentinel below every other value; it opens the keys of the system
    /// namespace.
    Guard,
    Null,
    Bool(bool),
    Int(i64),
    /// A binary64 number, held as its bit pattern.
    Float(u64),
    Str(Text),
    List(Vec<DataValue>),
    /// Sentinel above every other value.
    Bot,
}

/// The value that `v` stands for.
pub open spec fn value_of(v: DataValue) -> Value
    decreases v,
{
    match v {
        DataValue::Guard => Value::Guard,
        DataValue::Null => Value::Null,
        DataValue::Bool(b) => Value::Bool(b),
        DataValue::Int(i) => Value::Int(i),
        DataValue::Float(f) => Value::Float(f),
        DataValue::Str(s) => Value::Str(s@),
        DataValue::List(l) => Value::List(
            Seq::new(
                l.len() as nat,
                |i: int|
                    if 0 <= i < l.len() {
                        value_of(l[i])
                    } else {
                        Value::Null
                    },
            ),
        ),
        DataValue::Bot => Value::Bot,
    }
}

impl View for DataValue {
    type V = Value;

    open spec fn view(&self) -> Value {
        value_of(*self)
    }
}

/// The values that a vector of `DataValue`s stands for, in order.
pub open spec fn values_view(l: Seq<DataValue>) -> Seq<Value> {
    Seq::new(l.len(), |i: int| l[i]@)
}

pub const TAG_GUARD: u8 = 0x01;

pub const TAG_NULL: u8 = 0x02;

pub const TAG_FALSE: u8 = 0x03;

pub const TAG_TRUE: u8 = 0x04;

pub const TAG_INT: u8 = 0x05;

pub const TAG_FLOAT: u8 = 0x06;

pub const TAG_STR: u8 = 0x07;

pub const TAG_LIST: u8 = 0x08;

pub const TAG_BOT: u8 = 0xff;

/// The byte form of one value.
pub open spec fn encode_value(v: Value) -> Seq<u8>
    decreases v,
{
    match v {
        Value::Guard => seq![TAG_GUARD],
        Value::Null => seq![TAG_NULL],
        Value::Bool(b) => seq![if b { TAG_TRUE } else { TAG_FALSE }],
        Value::Int(i) => seq![TAG_INT] + u64_be(i as u64),
        Value::Float(f) => seq![TAG_FLOAT] + u64_be(f),
        Value::Str(s) => seq![TAG_STR] + u32_be(encode_utf8(s).len() as u32) + encode_utf8(s),
        Value::List(l) => seq![TAG_LIST] + u32_be(l.len() as u32) + encode_values(l),
        Value::Bot => seq![TAG_BOT],
    }
}

/// The byte forms of the values of `l`, one after the other.
pub open spec fn encode_values(l: Seq<Value>) -> Seq<u8>
    decreases l, l.len(),
{
    if l.len() == 0 {
        Seq::empty()
    } else {
        encode_value(l[0]) + encode_values(l.drop_first())
    }
}

/// The value at the front of `b` and the number of bytes it takes, if `b`
/// starts with the byte form of a value.
pub open spec fn decode_value(b: Seq<u8>) -> Option<(Value, nat)>
    decreases b.len(), 0nat,
{
    if b.len() == 0 {
        None
    } else if b[0] == TAG_GUARD {
        Some((Value::Guard, 1))
    } else if b[0] == TAG_NULL {
        Some((Value::Null, 1))
    } else if b[0] == TAG_FALSE {
        Some((Value::Bool(false), 1))
    } else if b[0] == TAG_TRUE {
        Some((Value::Bool(true), 1))
    } else if b[0] == TAG_BOT {
        Some((Value::Bot, 1))
    } else if b[0] == TAG_INT {
        if b.len() >= 9 {
            Some((Value::Int(u64_from_be(b.skip(1)) as i64), 9))
        } else {
            None
        }
    } else if b[0] == TAG_FLOAT {
        if b.len() >= 9 {
            Some((Value::Float(u64_from_be(b.skip(1))), 9))
        } else {
            None
        }
    } else if b[0] == TAG_STR {
        if b.len() >= 5 {
            let n = u32_from_be(b.skip(1)) as int;
            if b.len() >= 5 + n && valid_utf8(b.subrange(5, 5 + n)) {
                Some((Value::Str(decode_utf8(b.subrange(5, 5 + n))), (5 + n) as nat))
            } else {
                None
            }
        } else {
            None
        }
    } else if b[0] == TAG_LIST {
        if b.len() >= 5 {
            match decode_values(b.skip(5), u32_from_be(b.skip(1)) as nat) {
                Some((l, used)) => Some((Value::List(l), 5 + used)),
                None => None,
            }
        } else {
            None
        }
    } else {
        None
    }
}

/// The `n` values at the front of `b` and the number of bytes they take, if
/// `b` starts with the byte forms of `n` values.
pub open spec fn decode_values(b: Seq<u8>, n: nat) -> Option<(Seq<Value>, nat)>
    decreases b.len(), n + 1,
{
    if n == 0 {
        Some((Seq::empty(), 0))
    } else {
        match decode_value(b) {
            None => None,
            Some((v, used)) => if 0 < used <= b.len() {
                match decode_values(b.skip(used as int), (n - 1) as nat) {
                    Some((l, more)) => Some((seq![v] + l, used + more)),
                    None => None,
                }
            } else {
                None
            },
        }
    }
}

/// Whether the counts inside `v` fit the 32 bits that the byte form gives
/// them.
pub open spec fn value_fits(v: Value) -> bool
    decreases v,
{
    match v {
        Value::Str(s) => encode_utf8(s).len() <= u32::MAX,
        Value::List(l) => l.len() <= u32::MAX && forall|i: int|
            0 <= i < l.len() ==> value_fits(#[trigger] l[i]),
        _ => true,
    }
}

/// Whether every value of `l` fits.
pub open spec fn values_fit(l: Seq<Value>) -> bool {
    forall|i: int| 0 <= i < l.len() ==> value_fits(#[trigger] l[i])
}

/// The byte form of a value is never empty.
pub proof fn lemma_encode_value_nonempty(v: Value)
    ensures
        encode_value(v).len() >= 1,
{
}

/// The byte form of a sequence is that of its parts, one after the other.
pub proof fn lemma_encode_values_concat(a: Seq<Value>, b: Seq<Value>)
    ensures
        encode_values(a + b) == encode_values(a) + encode_values(b),
    decreases a.len(),
{
    if a.len() == 0 {
        assert(a + b =~= b);
        assert(encode_values(a) + encode_values(b) =~= encode_values(b));
    } else {
        assert((a + b).drop_first() =~= a.drop_first() + b);
        lemma_encode_values_concat(a.drop_first(), b);
        assert((a + b)[0] == a[0]);
        assert(encode_values(a + b) =~= encode_values(a) + encode_values(b));
    }
}

/// Appending one value appends its byte form.
pub proof fn lemma_encode_values_push(l: Seq<Value>, v: Value)
    ensures
        encode_values(l.push(v)) == encode_values(l) + encode_value(v),
{
    assert(l.push(v) =~= l + seq![v]);
    lemma_encode_values_concat(l, seq![v]);
    assert(seq![v].drop_first() =~= Seq::<Value>::empty());
    assert(encode_values(Seq::<Value>::empty()) =~= Seq::<u8>::empty());
    assert(encode_values(seq![v]) == encode_value(seq![v][0]) + encode_values(seq![v].drop_first()));
    assert(encode_values(seq![v]) =~= encode_value(v));
}

/// The byte form of a sequence holds that of each of its values, and at
/// least one byte for each.
pub proof fn lemma_encode_values_len(l: Seq<Value>)
    ensures
        encode_values(l).len() >= l.len(),
        forall|i: int| 0 <= i < l.len() ==> encode_value(#[trigger] l[i]).len() <= encode_values(l).len(),
    decreases l.len(),
{
    if l.len() > 0 {
        lemma_encode_values_len(l.drop_first());
        lemma_encode_value_nonempty(l[0]);
        assert forall|i: int| 0 <= i < l.len() implies encode_value(#[trigger] l[i]).len()
            <= encode_values(l).len() by {
            if i > 0 {
                assert(l[i] == l.drop_first()[i - 1]);
            }
        }
    }
}

/// A value whose byte form is short enough for a 32-bit length fits.
pub proof fn lemma_short_value_fits(v: Value)
    requires
        encode_value(v).len() <= u32::MAX,
    ensures
        value_fits(v),
    decreases v,
{
    match v {
        Value::List(l) => {
            lemma_encode_values_len(l);
            assert forall|i: int| 0 <= i < l.len() implies value_fits(#[trigger] l[i]) by {
                lemma_short_value_fits(l[i]);
            }
        },
        _ => {},
    }
}

/// Reading a value back from its byte form gives the value and the length of
/// that form, whatever bytes follow.
pub proof fn law_value_roundtrip(v: Value, rest: Seq<u8>)
    requires
        value_fits(v),
    ensures
        decode_value(encode_value(v) + rest) == Some((v, encode_value(v).len())),
    decreases v,
{
    let b = encode_value(v) + rest;
    match v {
        Value::Int(i) => {
            assert(b.skip(1) =~= u64_be(i as u64) + rest);
            lemma_u64_be_roundtrip(i as u64, rest);
            lemma_i64_bits_roundtrip(i);
        },
        Value::Float(f) => {
            assert(b.skip(1) =~= u64_be(f) + rest);
            lemma_u64_be_roundtrip(f, rest);
        },
        Value::Str(s) => {
            let payload = encode_utf8(s);
            let n = payload.len() as u32;
            assert(b.skip(1) =~= u32_be(n) + (payload + rest));
            lemma_u32_be_roundtrip(n, payload + rest);
            assert(b.subrange(5, 5 + n) =~= payload);
            encode_utf8_valid_utf8(s);
            encode_utf8_decode_utf8(s);
        },
        Value::List(l) => {
            let n = l.len() as u32;
            let body = encode_values(l);
            assert(b.skip(1) =~= u32_be(n) + (body + rest));
            lemma_u32_be_roundtrip(n, body + rest);
            assert(b.skip(5) =~= body + rest);
            law_values_roundtrip(l, rest);
        },
        _ => {},
    }
}

/// Reading a sequence of values back from their byte forms gives the
/// sequence and the total length, whatever bytes follow.
pub proof fn law_values_roundtrip(l: Seq<Value>, rest: Seq<u8>)
    requires
        values_fit(l),
    ensures
        decode_values(encode_values(l) + rest, l.len()) == Some((l, encode_values(l).len())),
    decreases l, l.len(),
{
    if l.len() > 0 {
        let head = encode_value(l[0]);
        let tail = encode_values(l.drop_first());
        let b = encode_values(l) + rest;
        assert(b =~= head + (tail + rest));
        law_value_roundtrip(l[0], tail + rest);
        lemma_encode_value_nonempty(l[0]);
        assert(b.skip(head.len() as int) =~= tail + rest);
        assert(values_fit(l.drop_first())) by {
            assert forall|i: int| 0 <= i < l.drop_first().len() implies value_fits(
                #[trigger] l.drop_first()[i],
            ) by {
                assert(l.drop_first()[i] == l[i + 1]);
            }
        }
        law_values_roundtrip(l.drop_first(), rest);
        assert(seq![l[0]] + l.drop_first() =~= l);
    }
}

/// `acc` followed by what `rest` holds, with `used` more bytes taken.
pub open spec fn join_decoded(acc: Seq<Value>, used: nat, rest: Option<(Seq<Value>, nat)>) -> Option<
    (Seq<Value>, nat),
> {
    match rest {
        Some((l, more)) => Some((acc + l, used + more)),
        None => None,
    }
}

/// A list stands for the values that its items stand for.
pub proof fn lemma_list_view(l: Vec<DataValue>)
    ensures
        DataValue::List(l)@ == Value::List(values_view(l@)),
{
    
    let a = DataValue::List(l)@->List_0;
    let b = values_view(l@);
    assert(a.len() == l.len());
    assert(a =~= b);
}

/// Joining nothing to a result leaves it as it is.
proof fn lemma_join_decoded_start(rest: Option<(Seq<Value>, nat)>)
    ensures
        join_decoded(Seq::empty(), 0, rest) == rest,
{
    match rest {
        Some((l, more)) => {
            assert(Seq::<Value>::empty() + l =~= l);
        },
        None => {},
    }
}

/// Reading one more value moves it from the bytes still to read to the
/// values already read.
proof fn lemma_decode_values_step(acc: Seq<Value>, used: nat, b: Seq<u8>, n: nat)
    requires
        n > 0,
    ensures
        decode_value(b) is None ==> join_decoded(acc, used, decode_values(b, n)) is None,
        decode_value(b) matches Some((v, k)) ==> 0 < k <= b.len() ==> join_decoded(
            acc,
            used,
            decode_values(b, n),
        ) == join_decoded(acc.push(v), used + k, decode_values(b.skip(k as int), (n - 1) as nat)),
{
    match decode_value(b) {
        None => {},
        Some((v, k)) => {
            if 0 < k <= b.len() {
                match decode_values(b.skip(k as int), (n - 1) as nat) {
                    None => {},
                    Some((l, more)) => {
                        assert(acc + (seq![v] + l) =~= acc.push(v) + l);
                    },
                }
            }
        },
    }
}

impl DataValue {
    /// Appends the byte form of the value to `out`.
    pub fn encode(&self, out: &mut Vec<u8>)
        ensures
            final(out)@ == old(out)@ + encode_value(self@),
        decreases self,
    {
        match self {
            DataValue::Guard => {
                out.push(TAG_GUARD);
                assert(out@ =~= old(out)@ + encode_value(self@));
            },
            DataValue::Null => {
                out.push(TAG_NULL);
                assert(out@ =~= old(out)@ + encode_value(self@));
            },
            DataValue::Bool(b) => {
                out.push(if *b { TAG_TRUE } else { TAG_FALSE });
                assert(out@ =~= old(out)@ + encode_value(self@));
            },
            DataValue::Int(i) => {
                out.push(TAG_INT);
                push_u64_be(out, #[verifier::truncate] (*i as u64));
                assert(out@ =~= old(out)@ + encode_value(self@));
            },
            DataValue::Float(f) => {
                out.push(TAG_FLOAT);
                push_u64_be(out, *f);
                assert(out@ =~= old(out)@ + encode_value(self@));
            },
            DataValue::Str(s) => {
                let payload = s.as_str().as_bytes();
                out.push(TAG_STR);
                push_u32_be(out, #[verifier::truncate] (payload.len() as u32));
                push_bytes(out, payload);
                assert(out@ =~= old(out)@ + encode_value(self@));
            },
            DataValue::List(l) => {
                out.push(TAG_LIST);
                push_u32_be(out, #[verifier::truncate] (l.len() as u32));
                let ghost head = out@;
                let ghost items = values_view(l@);
                let mut i: usize = 0;
                while i < l.len()
                    invariant
                        i <= l.len(),
                        items == values_view(l@),
                        out@ == head + encode_values(items.take(i as int)),
                        forall|k: int| 0 <= k < l.len() ==> decreases_to!(self => #[trigger] l[k]),
                    decreases l.len() - i,
                {
                    let ghost before = out@;
                    l[i].encode(out);
                    proof {
                        lemma_encode_values_push(items.take(i as int), items[i as int]);
                        assert(items.take(i + 1) =~= items.take(i as int).push(items[i as int]));
                        assert(out@ =~= head + encode_values(items.take(i + 1)));
                    }
                    i += 1;
                }
                proof {
                    assert(items.take(l.len() as int) =~= items);
                    lemma_list_view(*l);
                    assert(encode_values(Seq::<Value>::empty()) =~= Seq::<u8>::empty());
                    assert(out@ =~= old(out)@ + encode_value(self@));
                }
            },
            DataValue::Bot => {
                out.push(TAG_BOT);
                assert(out@ =~= old(out)@ + encode_value(self@));
            },
        }
    }

    /// Reads the value at the front of `bytes`, and says how many bytes it
    /// takes; nothing if `bytes` does not start with the byte form of a value.
    pub fn decode(bytes: &[u8]) -> (r: Option<(DataValue, usize)>)
        ensures
            match r {
                Some((v, used)) => decode_value(bytes@) == Some((v@, used as nat)),
                None => decode_value(bytes@) is None,
            },
    {
        assert(bytes@.skip(0) =~= bytes@);
        DataValue::decode_at(bytes, 0)
    }

    /// Reads the value that starts at `pos`, and says how many bytes it takes.
    pub(crate) fn decode_at(bytes: &[u8], pos: usize) -> (r: Option<(DataValue, usize)>)
        requires
            pos <= bytes@.len(),
        ensures
            match r {
                Some((v, used)) => decode_value(bytes@.skip(pos as int)) == Some((v@, used as nat))
                    && 0 < used && pos + used <= bytes@.len(),
                None => decode_value(bytes@.skip(pos as int)) is None,
            },
        decreases bytes@.len() - pos,
    {
        let len = bytes.len();
        if pos >= len {
            return None;
        }
        let ghost b = bytes@.skip(pos as int);
        let tag = bytes[pos];
        assert(b[0] == tag);
        if tag == TAG_GUARD {
            Some((DataValue::Guard, 1))
        } else if tag == TAG_NULL {
            Some((DataValue::Null, 1))
        } else if tag == TAG_FALSE {
            Some((DataValue::Bool(false), 1))
        } else if tag == TAG_TRUE {
            Some((DataValue::Bool(true), 1))
        } else if tag == TAG_BOT {
            Some((DataValue::Bot, 1))
        } else if tag == TAG_INT {
            if len - pos >= 9 {
                let bits = read_u64_be(bytes, pos + 1);
                assert(bytes@.skip(pos + 1) =~= b.skip(1));
                Some((DataValue::Int(#[verifier::truncate] (bits as i64)), 9))
            } else {
                None
            }
        } else if tag == TAG_FLOAT {
            if len - pos >= 9 {
                let bits = read_u64_be(bytes, pos + 1);
                assert(bytes@.skip(pos + 1) =~= b.skip(1));
                Some((DataValue::Float(bits), 9))
            } else {
                None
            }
        } else if tag == TAG_STR {
            if len - pos >= 5 {
                let n = read_u32_be(bytes, pos + 1) as usize;
                assert(bytes@.skip(pos + 1) =~= b.skip(1));
                if len - pos - 5 >= n {
                    let payload = slice_subrange(bytes, pos + 5, pos + 5 + n);
                    assert(payload@ =~= b.subrange(5, 5 + n));
                    match str_from_utf8(payload) {
                        Some(s) => Some((DataValue::Str(Text::new(s)), 5 + n)),
                        None => None,
                    }
                } else {
                    None
                }
            } else {
                None
            }
        } else if tag == TAG_LIST {
            if len - pos >= 5 {
                let n = read_u32_be(bytes, pos + 1);
                assert(bytes@.skip(pos + 1) =~= b.skip(1));
                assert(bytes@.skip(pos + 5) =~= b.skip(5));
                let mut items: Vec<DataValue> = Vec::new();
                let mut cur: usize = pos + 5;
                let mut i: u32 = 0;
                proof {
                    lemma_join_decoded_start(decode_values(b.skip(5), n as nat));
                }
                while i < n
                    invariant
                        pos + 5 <= cur <= len,
                        len == bytes@.len(),
                        b == bytes@.skip(pos as int),
                        b[0] == TAG_LIST,
                        n == u32_from_be(b.skip(1)),
                        i <= n,
                        decode_values(b.skip(5), n as nat) == join_decoded(
                            values_view(items@),
                            (cur - pos - 5) as nat,
                            decode_values(bytes@.skip(cur as int), (n - i) as nat),
                        ),
                    decreases n - i,
                {
                    proof {
                        lemma_decode_values_step(
                            values_view(items@),
                            (cur - pos - 5) as nat,
                            bytes@.skip(cur as int),
                            (n - i) as nat,
                        );
                    }
                    match DataValue::decode_at(bytes, cur) {
                        None => {
                            return None;
                        },
                        Some((v, used)) => {
                            proof {
                                assert(bytes@.skip(cur as int).skip(used as int) =~= bytes@.skip(
                                    cur + used,
                                ));
                                assert(values_view(items@).push(v@) =~= values_view(items@.push(v)));
                            }
                            items.push(v);
                            cur = cur + used;
                            i = i + 1;
                        },
                    }
                }
                proof {
                    assert(values_view(items@) + Seq::<Value>::empty() =~= values_view(items@));
                    lemma_list_view(items);
                }
                Some((DataValue::List(items), cur - pos))
            } else {
                None
            }
        } else {
            None
        }
    }
}

impl Clone for DataValue {
    /// A copy that stands for the same value.
    fn clone(&self) -> (r: DataValue)
        ensures
            r@ == self@,
        decreases self,
    {
        match self {
            DataValue::Guard => DataValue::Guard,
            DataValue::Null => DataValue::Null,
            DataValue::Bool(b) => DataValue::Bool(*b),
            DataValue::Int(i) => DataValue::Int(*i),
            DataValue::Float(f) => DataValue::Float(*f),
            DataValue::Str(s) => DataValue::Str(s.clone()),
            DataValue::List(l) => {
                let mut items: Vec<DataValue> = Vec::new();
                let mut i: usize = 0;
                while i < l.len()
                    invariant
                        i <= l.len(),
                        items@.len() == i,
                        forall|k: int| 0 <= k < i ==> (#[trigger] items@[k])@ == l@[k]@,
                        forall|k: int| 0 <= k < l.len() ==> decreases_to!(self => #[trigger] l[k]),
                    decreases l.len() - i,
                {
                    items.push(l[i].clone());
                    i += 1;
                }
                proof {
                    lemma_list_view(*l);
                    lemma_list_view(items);
                    assert(values_view(items@) =~= values_view(l@));
                }
                DataValue::List(items)
            },
            DataValue::Bot => DataValue::Bot,
        }
    }
}

/// Appends `bytes` to `out`.
pub fn push_bytes(out: &mut Vec<u8>, bytes: &[u8])
    ensures
        final(out)@ == old(out)@ + bytes@,
{
    let mut i: usize = 0;
    while i < bytes.len()
        invariant
            i <= bytes@.len(),
            out@ == old(out)@ + bytes@.take(i as int),
        decreases bytes@.len() - i,
    {
        out.push(bytes[i]);
        assert(out@ =~= old(out)@ + bytes@.take(i + 1));
        i += 1;
    }
    assert(bytes@.take(bytes@.len() as int) =~= bytes@);
}

} // verus!
