//! Tuples and their byte form as storage keys.
//!
//! A key starts with a header: the partition prefix, the arity, and one
//! offset for each value after the first, all as big-endian 32-bit numbers.
//! The byte forms of the values follow, the first one right after the header.
//! The offsets allow any value to be read without reading those before it.

use crate::data::bytes::{lemma_u32_be_roundtrip, push_u32_be, read_u32_be, u32_be, u32_from_be};
use crate::data::value::{
    decode_value, encode_value, encode_values, lemma_encode_value_nonempty,
    lemma_encode_values_concat, lemma_encode_values_push, lemma_short_value_fits,
    law_value_roundtrip, values_view, DataValue, Value,
};
use vstd::prelude::*;
use vstd::slice::slice_to_vec;

verus! {

/// Number of bytes that the partition prefix takes at the start of a key.
pub const PREFIX_LEN: usize = 4;

/// What is wrong with a byte string that should be a key.
#[derive(Clone, Debug, PartialEq, Eq)]
pub enum TupleError {
    /// The reason, and a copy of the bytes it was found in.
    BadData(String, Vec<u8>),
}

/// The ways in which reading from a key can fail.
pub enum Fault {
    /// The key is too short for its header, or an offset leaves the key.
    Length,
    /// The bytes at an offset are not the byte form of a value.
    Value,
}

/// Whether `e` reports the fault `f`, found in the bytes `b`.
pub open spec fn reports(e: TupleError, f: Fault, b: Seq<u8>) -> bool {
    match e {
        TupleError::BadData(reason, data) => {
            &&& data@ == b
            &&& reason@ == match f {
                Fault::Length => "bad data length"@,
                Fault::Value => "bad value data"@,
            }
        },
    }
}

/// Whether the outcome `r` of reading a value from `b` is what `s` says.
pub open spec fn agrees(r: Result<DataValue, TupleError>, s: Result<Value, Fault>, b: Seq<u8>) -> bool {
    match (r, s) {
        (Ok(v), Ok(w)) => v@ == w,
        (Err(e), Err(f)) => reports(e, f, b),
        _ => false,
    }
}

/// An ordered sequence of values: a row of a relation.
#[derive(Debug, PartialEq, Eq)]
pub struct Tuple(pub Vec<DataValue>);

impl View for Tuple {
    type V = Seq<Value>;

    open spec fn view(&self) -> Seq<Value> {
        values_view(self.0@)
    }
}

/// Length of the header of a key that holds `arity` values.
pub open spec fn header_len(arity: nat) -> nat {
    if arity == 0 {
        8
    } else {
        4 * (arity + 1)
    }
}

/// Position in the key at which the value with index `idx` starts.
pub open spec fn value_offset(vals: Seq<Value>, idx: int) -> nat {
    header_len(vals.len()) + encode_values(vals.take(idx)).len()
}

/// The byte at position `j` of the header of the key for `vals`: bytes 0 to 3
/// hold the prefix, bytes 4 to 7 the arity, and the four bytes from
/// `4 * (idx + 1)` on the offset of the value with index `idx >= 1`.
pub open spec fn header_byte(prefix: u32, vals: Seq<Value>, j: int) -> u8 {
    if j < 4 {
        u32_be(prefix)[j]
    } else if j < 8 {
        u32_be(vals.len() as u32)[j - 4]
    } else {
        u32_be(value_offset(vals, j / 4 - 1) as u32)[j % 4]
    }
}

/// The header of the key for `vals`.
pub open spec fn key_header(prefix: u32, vals: Seq<Value>) -> Seq<u8> {
    Seq::new(header_len(vals.len()), |j: int| header_byte(prefix, vals, j))
}

/// The key for `vals` in the partition `prefix`.
pub open spec fn encode_key(prefix: u32, vals: Seq<Value>) -> Seq<u8> {
    key_header(prefix, vals) + encode_values(vals)
}

/// The header in which only the offsets of the values before `filled` are
/// written yet; the other offsets are zero.
pub open spec fn partial_header(prefix: u32, vals: Seq<Value>, filled: int) -> Seq<u8> {
    Seq::new(
        header_len(vals.len()),
        |j: int|
            if j < 8 || j < 4 * (filled + 1) {
                header_byte(prefix, vals, j)
            } else {
                0u8
            },
    )
}

/// The partition prefix that the key `b` names, if `b` is long enough.
pub open spec fn key_prefix(b: Seq<u8>) -> Option<u32> {
    if b.len() < 4 {
        None
    } else {
        Some(u32_from_be(b))
    }
}

/// The arity that the key `b` names, if `b` is long enough.
pub open spec fn key_arity(b: Seq<u8>) -> Option<nat> {
    if b.len() < 8 {
        None
    } else {
        Some(u32_from_be(b.skip(4)) as nat)
    }
}

/// Where the header of `b` says that the value with index `idx` starts: for
/// index 0 right after the header, for the others at the recorded offset.
pub open spec fn key_value_offset(b: Seq<u8>, idx: nat) -> Option<nat> {
    if idx == 0 {
        match key_arity(b) {
            Some(n) => Some(4 * (n + 1)),
            None => None,
        }
    } else if b.len() < 4 * (idx + 1) + 4 {
        None
    } else {
        Some(u32_from_be(b.skip(4 * (idx + 1) as int)) as nat)
    }
}

/// The value with index `idx` of the key `b`.
pub open spec fn key_get(b: Seq<u8>, idx: nat) -> Result<Value, Fault> {
    match key_value_offset(b, idx) {
        None => Err(Fault::Length),
        Some(pos) => if pos >= b.len() {
            Err(Fault::Length)
        } else {
            match decode_value(b.skip(pos as int)) {
                Some((v, _)) => Ok(v),
                None => Err(Fault::Value),
            }
        },
    }
}

/// What walking over the key `b` yields, item by item: one fault if the
/// header is cut short, else one outcome for each index below the arity.
pub open spec fn key_items(b: Seq<u8>) -> Seq<Result<Value, Fault>> {
    match key_arity(b) {
        None => seq![Err(Fault::Length)],
        Some(n) => Seq::new(n, |i: int| key_get(b, i as nat)),
    }
}

/// Whether `vals` are all of `items`, each read without a fault.
pub open spec fn all_read(items: Seq<Result<Value, Fault>>, vals: Seq<Value>) -> bool {
    &&& vals.len() == items.len()
    &&& forall|k: int| 0 <= k < items.len() ==> #[trigger] items[k] == Ok::<Value, Fault>(vals[k])
}

/// Whether `f` is the first fault among `items`.
pub open spec fn first_fault(items: Seq<Result<Value, Fault>>, f: Fault) -> bool {
    exists|i: int|
        {
            &&& 0 <= i < items.len()
            &&& #[trigger] items[i] == Err::<Value, Fault>(f)
            &&& forall|k: int| 0 <= k < i ==> (#[trigger] items[k]) is Ok
        }
}

fn bad_length(data: &[u8]) -> (e: TupleError)
    ensures
        reports(e, Fault::Length, data@),
{
    TupleError::BadData("bad data length".to_owned(), slice_to_vec(data))
}

fn bad_value(data: &[u8]) -> (e: TupleError)
    ensures
        reports(e, Fault::Value, data@),
{
    TupleError::BadData("bad value data".to_owned(), slice_to_vec(data))
}

impl Clone for Tuple {
    /// A copy that stands for the same values.
    fn clone(&self) -> (r: Tuple)
        ensures
            r@ == self@,
    {
        let mut vals: Vec<DataValue> = Vec::new();
        let mut i: usize = 0;
        while i < self.0.len()
            invariant
                i <= self.0@.len(),
                vals@.len() == i,
                forall|k: int| 0 <= k < i ==> (#[trigger] vals@[k])@ == self.0@[k]@,
            decreases self.0@.len() - i,
        {
            vals.push(self.0[i].clone());
            i += 1;
        }
        let r = Tuple(vals);
        assert(r@ =~= self@);
        r
    }
}

impl Default for Tuple {
    /// The tuple without values.
    fn default() -> (r: Tuple)
        ensures
            r@ == Seq::<Value>::empty(),
    {
        let r = Tuple(Vec::new());
        assert(r@ =~= Seq::<Value>::empty());
        r
    }
}

impl Tuple {
    /// Number of values in the tuple.
    pub fn arity(&self) -> (n: usize)
        ensures
            n == self@.len(),
    {
        self.0.len()
    }

    /// The key for this tuple in the partition `prefix`.
    ///
    /// The arity and the offsets are written as 32-bit numbers; of a number
    /// that does not fit, the low 32 bits are written.
    pub fn encode_as_key(&self, prefix: u32) -> (ret: Vec<u8>)
        ensures
            ret@ == encode_key(prefix, self@),
    {
        let len = self.0.len();
        let ghost vals = self@;
        let mut ret: Vec<u8> = Vec::new();
        push_u32_be(&mut ret, prefix);
        push_u32_be(&mut ret, #[verifier::truncate] (len as u32));
        let mut k: usize = 1;
        while k < len
            invariant
                1 <= k,
                k <= len || (len == 0 && k == 1),
                vals.len() == len,
                ret@.len() == 4 * (k + 1),
                forall|j: int| 0 <= j < 8 ==> #[trigger] ret@[j] == header_byte(prefix, vals, j),
                forall|j: int| 8 <= j < ret@.len() ==> #[trigger] ret@[j] == 0u8,
            decreases len - k,
        {
            ret.push(0);
            ret.push(0);
            ret.push(0);
            ret.push(0);
            k += 1;
        }
        assert(ret@.len() == header_len(vals.len()));
        assert(ret@ =~= partial_header(prefix, vals, 0) + encode_values(vals.take(0))) by {
            assert(encode_values(vals.take(0)) =~= Seq::<u8>::empty());
        }
        let mut idx: usize = 0;
        while idx < len
            invariant
                idx <= len,
                vals == self@,
                vals.len() == len,
                len == self.0.len(),
                ret@ == partial_header(prefix, vals, idx as int) + encode_values(
                    vals.take(idx as int),
                ),
            decreases len - idx,
        {
            let ghost body = encode_values(vals.take(idx as int));
            if idx > 0 {
                let pos: u32 = #[verifier::truncate] (ret.len() as u32);
                let slot: usize = 4 * (1 + idx);
                assert(ret@.len() == value_offset(vals, idx as int));
                ret.set(slot, #[verifier::truncate] ((pos >> 24) as u8));
                ret.set(slot + 1, #[verifier::truncate] ((pos >> 16) as u8));
                ret.set(slot + 2, #[verifier::truncate] ((pos >> 8) as u8));
                ret.set(slot + 3, #[verifier::truncate] (pos as u8));
                assert(ret@ =~= partial_header(prefix, vals, idx + 1) + body) by {
                    assert forall|j: int| 0 <= j < ret@.len() implies ret@[j] == (partial_header(
                        prefix,
                        vals,
                        idx + 1,
                    ) + body)[j] by {
                        if slot <= j < slot + 4 {
                            assert(j / 4 - 1 == idx);
                            assert(j % 4 == j - slot);
                        }
                    }
                }
            } else {
                assert(partial_header(prefix, vals, 1) =~= partial_header(prefix, vals, 0));
            }
            self.0[idx].encode(&mut ret);
            proof {
                lemma_encode_values_push(vals.take(idx as int), vals[idx as int]);
                assert(vals.take(idx + 1) =~= vals.take(idx as int).push(vals[idx as int]));
                assert(ret@ =~= partial_header(prefix, vals, idx + 1) + encode_values(
                    vals.take(idx + 1),
                ));
            }
            idx += 1;
        }
        proof {
            assert(vals.take(len as int) =~= vals);
            assert(partial_header(prefix, vals, len as int) =~= key_header(prefix, vals));
        }
        ret
    }
}

/// A byte string read as the key of a tuple.
#[derive(Copy, Clone, Debug)]
pub struct EncodedTuple<'a>(pub &'a [u8]);

impl<'a> View for EncodedTuple<'a> {
    type V = Seq<u8>;

    open spec fn view(&self) -> Seq<u8> {
        self.0@
    }
}

impl<'a> From<&'a [u8]> for EncodedTuple<'a> {
    fn from(s: &'a [u8]) -> (r: Self) {
        EncodedTuple(s)
    }
}

impl<'a> vstd::std_specs::convert::FromSpecImpl<&'a [u8]> for EncodedTuple<'a> {
    open spec fn obeys_from_spec() -> bool {
        true
    }

    open spec fn from_spec(s: &'a [u8]) -> Self {
        EncodedTuple(s)
    }
}

impl<'a> EncodedTuple<'a> {
    /// The partition prefix of the key.
    pub fn prefix(&self) -> (r: Result<u32, TupleError>)
        ensures
            match r {
                Ok(p) => key_prefix(self@) == Some(p),
                Err(e) => key_prefix(self@) is None && reports(e, Fault::Length, self@),
            },
    {
        if self.0.len() < 4 {
            Err(bad_length(self.0))
        } else {
            assert(self@.skip(0) =~= self@);
            Ok(read_u32_be(self.0, 0))
        }
    }

    /// The number of values that the key says it holds.
    pub fn arity(&self) -> (r: Result<usize, TupleError>)
        ensures
            match r {
                Ok(n) => key_arity(self@) == Some(n as nat),
                Err(e) => key_arity(self@) is None && reports(e, Fault::Length, self@),
            },
    {
        if self.0.len() < 8 {
            Err(bad_length(self.0))
        } else {
            Ok(read_u32_be(self.0, 4) as usize)
        }
    }

    /// The value with index `idx`, read at the place that the header gives
    /// for it.
    pub fn get(&self, idx: usize) -> (r: Result<DataValue, TupleError>)
        ensures
            agrees(r, key_get(self@, idx as nat), self@),
    {
        let len = self.0.len();
        let pos: u64 = if idx == 0 {
            if len < 8 {
                return Err(bad_length(self.0));
            }
            4 * (read_u32_be(self.0, 4) as u64 + 1)
        } else {
            if idx > usize::MAX / 4 - 2 {
                return Err(bad_length(self.0));
            }
            let len_pos = (idx + 1) * 4;
            if len < len_pos + 4 {
                return Err(bad_length(self.0));
            }
            read_u32_be(self.0, len_pos) as u64
        };
        if pos >= len as u64 {
            return Err(bad_length(self.0));
        }
        match DataValue::decode_at(self.0, pos as usize) {
            Some((v, _)) => Ok(v),
            None => Err(bad_value(self.0)),
        }
    }

    /// A walk over the values of the key, from the first one.
    pub fn iter(&self) -> (it: EncodedTupleIter<'a>)
        ensures
            it.key() == self@,
            it.yielded() == 0,
    {
        EncodedTupleIter { tuple: *self, size: 0, pos: 0, failed: false }
    }

    /// All values of the key, or the first fault met on the way.
    pub fn decode(&self) -> (r: Result<Tuple, TupleError>)
        ensures
            match r {
                Ok(t) => all_read(key_items(self@), t@),
                Err(e) => exists|f: Fault| #[trigger]
                    first_fault(key_items(self@), f) && reports(e, f, self@),
            },
    {
        let mut it = self.iter();
        let mut vals: Vec<DataValue> = Vec::new();
        let ghost items = key_items(self@);
        loop
            invariant
                it.key() == self@,
                items == key_items(self@),
                it.yielded() == vals@.len(),
                vals@.len() <= items.len(),
                forall|k: int|
                    0 <= k < vals@.len() ==> #[trigger] items[k] == Ok::<Value, Fault>(vals@[k]@),
            decreases items.len() - it.yielded(),
        {
            match it.next() {
                None => {
                    let t = Tuple(vals);
                    assert(t@.len() == items.len());
                    assert forall|k: int| 0 <= k < items.len() implies #[trigger] items[k] == Ok::<
                        Value,
                        Fault,
                    >(t@[k]) by {}
                    return Ok(t);
                },
                Some(Err(e)) => {
                    let ghost i = vals@.len() as int;
                    let ghost f = items[i]->Err_0;
                    assert(first_fault(items, f)) by {
                        assert(items[i] == Err::<Value, Fault>(f));
                        assert forall|k: int| 0 <= k < i implies (#[trigger] items[k]) is Ok by {}
                    }
                    return Err(e);
                },
                Some(Ok(v)) => {
                    vals.push(v);
                },
            }
        }
    }
}

/// A walk over the values of a key. Each step reads one value on its own, so
/// a fault in one value does not hide the values after it.
pub struct EncodedTupleIter<'a> {
    tuple: EncodedTuple<'a>,
    size: usize,
    pos: usize,
    failed: bool,
}

impl<'a> EncodedTupleIter<'a> {
    #[verifier::type_invariant]
    spec fn inv(&self) -> bool {
        &&& self.pos <= self.size
        &&& self.size > 0 ==> key_arity(self.tuple@) == Some(self.size as nat)
        &&& self.failed ==> key_arity(self.tuple@) is None
    }

    /// The bytes of the key that is walked over.
    pub closed spec fn key(&self) -> Seq<u8> {
        self.tuple@
    }

    /// Number of items that the walk has yielded so far.
    pub closed spec fn yielded(&self) -> nat {
        if self.failed {
            1
        } else {
            self.pos as nat
        }
    }

    /// The next item of the walk, or nothing once all items were yielded.
    pub fn next(&mut self) -> (r: Option<Result<DataValue, TupleError>>)
        ensures
            final(self).key() == old(self).key(),
            old(self).yielded() <= key_items(old(self).key()).len(),
            match r {
                Some(item) => {
                    &&& old(self).yielded() < key_items(old(self).key()).len()
                    &&& agrees(
                        item,
                        key_items(old(self).key())[old(self).yielded() as int],
                        old(self).key(),
                    )
                    &&& final(self).yielded() == old(self).yielded() + 1
                },
                None => {
                    &&& old(self).yielded() == key_items(old(self).key()).len()
                    &&& final(self).yielded() == old(self).yielded()
                },
            },
    {
        proof {
            use_type_invariant(&*self);
        }
        if self.failed {
            return None;
        }
        if self.size == 0 {
            match self.tuple.arity() {
                Ok(a) => {
                    self.size = a;
                },
                Err(e) => {
                    self.failed = true;
                    return Some(Err(e));
                },
            }
        }
        if self.pos == self.size {
            None
        } else {
            let pos = self.pos;
            self.pos += 1;
            Some(self.tuple.get(pos))
        }
    }
}

/// The values from index `i` on follow the values before `i` in the byte
/// form of a sequence.
proof fn lemma_body_split(vals: Seq<Value>, i: int)
    requires
        0 <= i < vals.len(),
    ensures
        encode_values(vals) == encode_values(vals.take(i)) + (encode_value(vals[i]) + encode_values(
            vals.skip(i + 1),
        )),
{
    assert(vals =~= vals.take(i) + vals.skip(i));
    lemma_encode_values_concat(vals.take(i), vals.skip(i));
    assert(vals.skip(i).drop_first() =~= vals.skip(i + 1));
    assert(vals.skip(i)[0] == vals[i]);
}

/// Round trip: from the key of a tuple one reads back the prefix, the arity
/// and every value that went into it, as long as the key is short enough for
/// its 32-bit offsets.
pub proof fn law_key_roundtrip(prefix: u32, vals: Seq<Value>)
    requires
        encode_key(prefix, vals).len() <= u32::MAX,
    ensures
        key_prefix(encode_key(prefix, vals)) == Some(prefix),
        key_arity(encode_key(prefix, vals)) == Some(vals.len()),
        forall|i: int|
            0 <= i < vals.len() ==> #[trigger] key_get(encode_key(prefix, vals), i as nat) == Ok::<
                Value,
                Fault,
            >(vals[i]),
        all_read(key_items(encode_key(prefix, vals)), vals),
{
    let b = encode_key(prefix, vals);
    let hdr = key_header(prefix, vals);
    let body = encode_values(vals);
    let n = vals.len();
    let h = header_len(n);
    assert(b.len() == h + body.len());
    assert(b =~= u32_be(prefix) + b.skip(4)) by {
        assert forall|j: int| 0 <= j < 4 implies b[j] == u32_be(prefix)[j] by {
            assert(b[j] == hdr[j]);
        }
    }
    lemma_u32_be_roundtrip(prefix, b.skip(4));
    assert(b.skip(4) =~= u32_be(n as u32) + b.skip(8)) by {
        assert forall|j: int| 0 <= j < 4 implies b.skip(4)[j] == u32_be(n as u32)[j] by {
            assert(b.skip(4)[j] == hdr[j + 4]);
        }
    }
    lemma_u32_be_roundtrip(n as u32, b.skip(8));
    assert(key_arity(b) == Some(n));
    assert forall|i: int| 0 <= i < n implies #[trigger] key_get(b, i as nat) == Ok::<Value, Fault>(
        vals[i],
    ) by {
        lemma_key_get(prefix, vals, i);
    }
    assert(key_items(b).len() == n);
    assert forall|k: int| 0 <= k < n implies #[trigger] key_items(b)[k] == Ok::<Value, Fault>(
        vals[k],
    ) by {
        assert(key_items(b)[k] == key_get(b, k as nat));
    }
}

/// Reading the value with index `i` from the key of a tuple gives the value
/// that went into it.
proof fn lemma_key_get(prefix: u32, vals: Seq<Value>, i: int)
    requires
        encode_key(prefix, vals).len() <= u32::MAX,
        key_arity(encode_key(prefix, vals)) == Some(vals.len()),
        0 <= i < vals.len(),
    ensures
        key_get(encode_key(prefix, vals), i as nat) == Ok::<Value, Fault>(vals[i]),
{
    let b = encode_key(prefix, vals);
    let hdr = key_header(prefix, vals);
    let body = encode_values(vals);
    let n = vals.len();
    let h = header_len(n);
    let before = encode_values(vals.take(i));
    let rest = encode_values(vals.skip(i + 1));
    let off = value_offset(vals, i);
    lemma_body_split(vals, i);
    lemma_encode_value_nonempty(vals[i]);
    assert(off == h + before.len());
    assert(off < b.len());
    assert(b.skip(off as int) =~= encode_value(vals[i]) + rest);
    lemma_short_value_fits(vals[i]);
    law_value_roundtrip(vals[i], rest);
    if i == 0 {
        assert(vals.take(0) =~= Seq::<Value>::empty());
        assert(before.len() == 0);
        assert(key_value_offset(b, 0) == Some(off));
    } else {
        let slot = 4 * (i + 1);
        assert(b.skip(slot) =~= u32_be(off as u32) + b.skip(slot + 4)) by {
            assert forall|j: int| 0 <= j < 4 implies b.skip(slot)[j] == u32_be(off as u32)[j] by {
                assert(b.skip(slot)[j] == hdr[slot + j]);
                assert((slot + j) / 4 - 1 == i);
                assert((slot + j) % 4 == j);
            }
        }
        lemma_u32_be_roundtrip(off as u32, b.skip(slot + 4));
        assert(key_value_offset(b, i as nat) == Some(off));
    }
}

} // verus!
