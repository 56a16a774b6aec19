//! Big-endian integers inside byte strings.

use vstd::prelude::*;

verus! {

/// The four bytes of `x`, most significant first.
pub open spec fn u32_be(x: u32) -> Seq<u8> {
    seq![(x >> 24) as u8, (x >> 16) as u8, (x >> 8) as u8, x as u8]
}

/// The number whose big-endian bytes are the first four bytes of `s`.
pub open spec fn u32_from_be(s: Seq<u8>) -> u32
    recommends
        s.len() >= 4,
{
    (s[0] as u32) << 24 | (s[1] as u32) << 16 | (s[2] as u32) << 8 | (s[3] as u32)
}

/// The eight bytes of `x`, most significant first.
pub open spec fn u64_be(x: u64) -> Seq<u8> {
    seq![
        (x >> 56) as u8,
        (x >> 48) as u8,
        (x >> 40) as u8,
        (x >> 32) as u8,
        (x >> 24) as u8,
        (x >> 16) as u8,
        (x >> 8) as u8,
        x as u8,
    ]
}

/// The number whose big-endian bytes are the first eight bytes of `s`.
pub open spec fn u64_from_be(s: Seq<u8>) -> u64
    recommends
        s.len() >= 8,
{
    (s[0] as u64) << 56 | (s[1] as u64) << 48 | (s[2] as u64) << 40 | (s[3] as u64) << 32 | (
    s[4] as u64) << 24 | (s[5] as u64) << 16 | (s[6] as u64) << 8 | (s[7] as u64)
}

/// Reading back the big-endian bytes of a 32-bit number gives the number,
/// whatever follows them.
pub proof fn lemma_u32_be_roundtrip(x: u32, rest: Seq<u8>)
    ensures
        u32_be(x).len() == 4,
        u32_from_be(u32_be(x) + rest) == x,
{
    let s = u32_be(x) + rest;
    assert(s[0] == (x >> 24) as u8);
    assert(s[1] == (x >> 16) as u8);
    assert(s[2] == (x >> 8) as u8);
    assert(s[3] == x as u8);
    assert((((x >> 24) as u8) as u32) << 24 | (((x >> 16) as u8) as u32) << 16 | (((x >> 8) as u8) as u32)
        << 8 | ((x as u8) as u32) == x) by (bit_vector);
}

/// Reading back the big-endian bytes of a 64-bit number gives the number,
/// whatever follows them.
pub proof fn lemma_u64_be_roundtrip(x: u64, rest: Seq<u8>)
    ensures
        u64_be(x).len() == 8,
        u64_from_be(u64_be(x) + rest) == x,
{
    let s = u64_be(x) + rest;
    assert(s[0] == (x >> 56) as u8);
    assert(s[1] == (x >> 48) as u8);
    assert(s[2] == (x >> 40) as u8);
    assert(s[3] == (x >> 32) as u8);
    assert(s[4] == (x >> 24) as u8);
    assert(s[5] == (x >> 16) as u8);
    assert(s[6] == (x >> 8) as u8);
    assert(s[7] == x as u8);
    assert((((x >> 56) as u8) as u64) << 56 | (((x >> 48) as u8) as u64) << 48 | (((x >> 40) as u8) as u64)
        << 40 | (((x >> 32) as u8) as u64) << 32 | (((x >> 24) as u8) as u64) << 24 | (((x >> 16) as u8) as u64)
        << 16 | (((x >> 8) as u8) as u64) << 8 | ((x as u8) as u64) == x) by (bit_vector);
}

/// A signed 64-bit number survives the trip through its two's-complement bits.
pub proof fn lemma_i64_bits_roundtrip(i: i64)
    ensures
        ((i as u64) as i64) == i,
{
    assert(((i as u64) as i64) == i) by (bit_vector);
}

/// Appends the big-endian bytes of `x` to `out`.
pub fn push_u32_be(out: &mut Vec<u8>, x: u32)
    ensures
        final(out)@ == old(out)@ + u32_be(x),
{
    out.push(#[verifier::truncate] ((x >> 24) as u8));
    out.push(#[verifier::truncate] ((x >> 16) as u8));
    out.push(#[verifier::truncate] ((x >> 8) as u8));
    out.push(#[verifier::truncate] (x as u8));
    assert(out@ =~= old(out)@ + u32_be(x));
}

/// Appends the big-endian bytes of `x` to `out`.
pub fn push_u64_be(out: &mut Vec<u8>, x: u64)
    ensures
        final(out)@ == old(out)@ + u64_be(x),
{
    out.push(#[verifier::truncate] ((x >> 56) as u8));
    out.push(#[verifier::truncate] ((x >> 48) as u8));
    out.push(#[verifier::truncate] ((x >> 40) as u8));
    out.push(#[verifier::truncate] ((x >> 32) as u8));
    out.push(#[verifier::truncate] ((x >> 24) as u8));
    out.push(#[verifier::truncate] ((x >> 16) as u8));
    out.push(#[verifier::truncate] ((x >> 8) as u8));
    out.push(#[verifier::truncate] (x as u8));
    assert(out@ =~= old(out)@ + u64_be(x));
}

/// Reads the big-endian 32-bit number that starts at `pos`.
pub(crate) fn read_u32_be(bytes: &[u8], pos: usize) -> (r: u32)
    requires
        pos + 4 <= bytes@.len(),
    ensures
        r == u32_from_be(bytes@.skip(pos as int)),
{
    (bytes[pos] as u32) << 24 | (bytes[pos + 1] as u32) << 16 | (bytes[pos + 2] as u32) << 8 | (
    bytes[pos + 3] as u32)
}

/// Reads the big-endian 64-bit number that starts at `pos`.
pub(crate) fn read_u64_be(bytes: &[u8], pos: usize) -> (r: u64)
    requires
        pos + 8 <= bytes@.len(),
    ensures
        r == u64_from_be(bytes@.skip(pos as int)),
{
    (bytes[pos] as u64) << 56 | (bytes[pos + 1] as u64) << 48 | (bytes[pos + 2] as u64) << 40 | (
    bytes[pos + 3] as u64) << 32 | (bytes[pos + 4] as u64) << 24 | (bytes[pos + 5] as u64) << 16 | (
    bytes[pos + 6] as u64) << 8 | (bytes[pos + 7] as u64)
}

} // verus!
