//! The numeric order of integers and binary64 numbers.
//!
//! A binary64 number is held as its bit pattern: one sign bit, eleven exponent
//! bits and fifty-two fraction bits. Its magnitude is a whole multiple of
//! 2^-1074, so every number, integer or not, is compared through the whole
//! number that it is 2^1074 times of. Infinities and NaN patterns have no such
//! value; the same formula places them beyond every finite number, the NaN
//! patterns last, by sign and fraction.

use vstd::arithmetic::power2::{
    lemma2_to64, lemma2_to64_rest, lemma_pow2_adds, lemma_pow2_pos, lemma_pow2_strictly_increases,
    pow2,
};
use vstd::prelude::*;

verus! {

/// How one thing stands to another in an order.
#[derive(Clone, Copy, Debug, PartialEq, Eq, Structural)]
pub enum Order {
    Less,
    Equal,
    Greater,
}

/// How two whole numbers compare.
pub open spec fn int_order(x: int, y: int) -> Order {
    if x < y {
        Order::Less
    } else if x > y {
        Order::Greater
    } else {
        Order::Equal
    }
}

/// The order read from the other side.
pub open spec fn flipped(o: Order) -> Order {
    match o {
        Order::Less => Order::Greater,
        Order::Equal => Order::Equal,
        Order::Greater => Order::Less,
    }
}

/// Whether the sign bit is set.
pub open spec fn float_negative(bits: u64) -> bool {
    bits >= 0x8000_0000_0000_0000
}

/// The eleven exponent bits.
pub open spec fn float_exponent(bits: u64) -> nat {
    ((bits >> 52) & 0x7ff) as nat
}

/// The fifty-two fraction bits.
pub open spec fn float_fraction(bits: u64) -> nat {
    (bits & 0xf_ffff_ffff_ffff) as nat
}

/// The fraction, with the implicit leading bit of a normal number.
pub open spec fn float_significand(bits: u64) -> nat {
    if float_exponent(bits) == 0 {
        float_fraction(bits)
    } else {
        0x10_0000_0000_0000 + float_fraction(bits)
    }
}

/// The power of two by which the significand is multiplied, counted from
/// 2^-1074.
pub open spec fn float_scale(bits: u64) -> nat {
    if float_exponent(bits) == 0 {
        0
    } else {
        (float_exponent(bits) - 1) as nat
    }
}

/// The magnitude of the number, in units of 2^-1074.
pub open spec fn float_magnitude(bits: u64) -> int {
    (float_significand(bits) as int) * (pow2(float_scale(bits)) as int)
}

/// The number, in units of 2^-1074.
pub open spec fn float_scaled(bits: u64) -> int {
    if float_negative(bits) {
        -float_magnitude(bits)
    } else {
        float_magnitude(bits)
    }
}

/// The integer, in units of 2^-1074.
pub open spec fn int_scaled(i: i64) -> int {
    i * pow2(1074)
}

/// How an integer and a binary64 number compare: by value, and the integer
/// first where the values are equal.
pub open spec fn int_float_order(i: i64, f: u64) -> Order {
    if int_scaled(i) < float_scaled(f) {
        Order::Less
    } else if int_scaled(i) > float_scaled(f) {
        Order::Greater
    } else {
        Order::Less
    }
}

/// How two binary64 numbers compare: by value, and negative zero before
/// positive zero.
pub open spec fn float_order(f: u64, g: u64) -> Order {
    if float_scaled(f) < float_scaled(g) {
        Order::Less
    } else if float_scaled(f) > float_scaled(g) {
        Order::Greater
    } else if f == g {
        Order::Equal
    } else if float_negative(f) {
        Order::Less
    } else {
        Order::Greater
    }
}

/// The absolute value of an integer.
pub open spec fn int_magnitude(i: i64) -> nat {
    if i < 0 {
        (-i) as nat
    } else {
        i as nat
    }
}

proof fn lemma_float_parts(bits: u64)
    ensures
        float_exponent(bits) <= 2047,
        float_fraction(bits) < 0x10_0000_0000_0000,
        float_significand(bits) < 0x20_0000_0000_0000,
        float_exponent(bits) > 0 ==> float_significand(bits) >= 0x10_0000_0000_0000,
        float_scale(bits) <= 2046,
{
    assert((bits >> 52) & 0x7ff <= 2047) by (bit_vector);
    assert(bits & 0xf_ffff_ffff_ffff < 0x10_0000_0000_0000) by (bit_vector);
}

/// Multiplying both sides by the same positive number keeps the order.
pub proof fn lemma_order_scales(x: int, y: int, c: int)
    requires
        c > 0,
    ensures
        int_order(x * c, y * c) == int_order(x, y),
{
    assert(x < y ==> x * c < y * c) by (nonlinear_arith)
        requires
            c > 0,
    ;
    assert(x > y ==> x * c > y * c) by (nonlinear_arith)
        requires
            c > 0,
    ;
}

/// A significand times a power of two, split at a smaller power.
proof fn lemma_pow2_split(s: int, lo: nat, hi: nat)
    ensures
        s * pow2(lo + hi) == (s * pow2(lo)) * pow2(hi),
{
    lemma_pow2_adds(lo, hi);
    assert(s * (pow2(lo) * pow2(hi)) == (s * pow2(lo)) * pow2(hi)) by (nonlinear_arith);
}

/// Among the bit patterns of one sign, a larger exponent, or the same
/// exponent and a larger fraction, means a larger magnitude.
proof fn lemma_magnitude_grows(f: u64, g: u64)
    requires
        float_exponent(f) < float_exponent(g) || (float_exponent(f) == float_exponent(g)
            && float_fraction(f) < float_fraction(g)),
    ensures
        float_magnitude(f) < float_magnitude(g),
{
    lemma_float_parts(f);
    lemma_float_parts(g);
    let sf = float_significand(f) as int;
    let sg = float_significand(g) as int;
    let kf = float_scale(f);
    let kg = float_scale(g);
    lemma_pow2_pos(kf);
    lemma_pow2_pos(kg);
    if float_exponent(f) == float_exponent(g) {
        lemma_order_scales(sf, sg, pow2(kf) as int);
    } else {
        // f's magnitude stays below 2^52 * 2^(kf + 1), which g's reaches.
        let top = 0x10_0000_0000_0000int;
        if float_exponent(f) == 0 {
            assert(pow2(0) == 1) by {
                lemma2_to64();
            }
            assert(sf * 1 < top * pow2(kg)) by (nonlinear_arith)
                requires
                    sf < top,
                    top > 0,
                    pow2(kg) >= 1,
            ;
        } else {
            lemma_pow2_adds(1, kf);
            assert(pow2(1) == 2) by {
                lemma2_to64();
            }
            assert(sf * pow2(kf) < top * pow2(kf + 1)) by (nonlinear_arith)
                requires
                    sf < 2 * top,
                    pow2(kf + 1) == 2 * pow2(kf),
                    pow2(kf) > 0,
            ;
            if kf + 1 < kg {
                lemma_pow2_strictly_increases(kf + 1, kg);
            }
            assert(top * pow2(kf + 1) <= top * pow2(kg)) by (nonlinear_arith)
                requires
                    pow2(kf + 1) <= pow2(kg),
                    top > 0,
            ;
        }
        assert(top * pow2(kg) <= sg * pow2(kg)) by (nonlinear_arith)
            requires
                top <= sg,
                pow2(kg) > 0,
        ;
    }
}

/// Two bit patterns with the same exponent and fraction bits have the same
/// magnitude, and with the same sign bit too they are the same pattern.
proof fn lemma_same_parts(f: u64, g: u64)
    requires
        float_exponent(f) == float_exponent(g),
        float_fraction(f) == float_fraction(g),
    ensures
        float_magnitude(f) == float_magnitude(g),
        float_negative(f) == float_negative(g) ==> f == g,
{
    assert(((f >> 52) & 0x7ff) == ((g >> 52) & 0x7ff) && (f & 0xf_ffff_ffff_ffff) == (g
        & 0xf_ffff_ffff_ffff) && ((f >= 0x8000_0000_0000_0000) == (g >= 0x8000_0000_0000_0000)) ==> f
        == g) by (bit_vector);
}

/// A magnitude is not negative.
proof fn lemma_magnitude_not_negative(f: u64)
    ensures
        float_magnitude(f) >= 0,
{
    lemma_pow2_pos(float_scale(f));
    let s = float_significand(f) as int;
    let p = pow2(float_scale(f)) as int;
    assert(s * p >= 0) by (nonlinear_arith)
        requires
            p > 0,
            s >= 0,
    ;
}

/// Only the two zeros have magnitude zero.
proof fn lemma_zero_magnitude(f: u64)
    ensures
        float_magnitude(f) == 0 <==> (float_exponent(f) == 0 && float_fraction(f) == 0),
{
    lemma_float_parts(f);
    lemma_pow2_pos(float_scale(f));
    let s = float_significand(f) as int;
    let p = pow2(float_scale(f)) as int;
    assert(s * p == 0 <==> s == 0) by (nonlinear_arith)
        requires
            p > 0,
            s >= 0,
    ;
}

/// The place of a binary64 number among the numbers of its value: a negative
/// zero comes before a positive one.
pub open spec fn float_tie(f: u64) -> int {
    if float_negative(f) {
        1
    } else {
        2
    }
}

/// How two pairs of whole numbers compare: by the first numbers, and by the
/// second ones where the first are equal.
pub open spec fn pair_order(s1: int, t1: int, s2: int, t2: int) -> Order {
    if s1 != s2 {
        int_order(s1, s2)
    } else {
        int_order(t1, t2)
    }
}

/// Two bit patterns of one sign with the same magnitude are the same.
proof fn lemma_magnitude_tells_apart(f: u64, g: u64)
    requires
        float_magnitude(f) == float_magnitude(g),
        float_negative(f) == float_negative(g),
    ensures
        f == g,
{
    let ef = float_exponent(f);
    let eg = float_exponent(g);
    if ef < eg || (ef == eg && float_fraction(f) < float_fraction(g)) {
        lemma_magnitude_grows(f, g);
    } else if ef > eg || (ef == eg && float_fraction(f) > float_fraction(g)) {
        lemma_magnitude_grows(g, f);
    } else {
        lemma_same_parts(f, g);
    }
}

/// Binary64 numbers are ordered as the pairs of their value and their place
/// among the numbers of that value, and no two of them have the same pair.
pub proof fn lemma_float_order_by_pair(f: u64, g: u64)
    ensures
        float_order(f, g) == pair_order(float_scaled(f), float_tie(f), float_scaled(g), float_tie(g)),
        float_scaled(f) == float_scaled(g) && float_tie(f) == float_tie(g) ==> f == g,
{
    lemma_magnitude_not_negative(f);
    lemma_magnitude_not_negative(g);
    if float_scaled(f) == float_scaled(g) && float_negative(f) == float_negative(g) {
        lemma_magnitude_tells_apart(f, g);
    }
}

/// Integers are ordered as their values in units of 2^-1074, and no two of
/// them have the same value.
pub proof fn lemma_int_order_by_scaled(i: i64, j: i64)
    ensures
        int_order(int_scaled(i), int_scaled(j)) == int_order(i as int, j as int),
{
    lemma_pow2_pos(1074);
    lemma_order_scales(i as int, j as int, pow2(1074) as int);
}

fn exponent_bits(bits: u64) -> (e: u32)
    ensures
        e == float_exponent(bits),
        e <= 2047,
{
    proof {
        lemma_float_parts(bits);
    }
    ((bits >> 52) & 0x7ff) as u32
}

fn fraction_bits(bits: u64) -> (m: u64)
    ensures
        m == float_fraction(bits),
        m < 0x10_0000_0000_0000,
{
    proof {
        lemma_float_parts(bits);
    }
    bits & 0xf_ffff_ffff_ffff
}

fn sign_bit(bits: u64) -> (s: bool)
    ensures
        s == float_negative(bits),
{
    bits >= 0x8000_0000_0000_0000
}

fn magnitude_of(i: i64) -> (a: u64)
    ensures
        a == int_magnitude(i),
        a <= 0x8000_0000_0000_0000,
{
    if i >= 0 {
        i as u64
    } else {
        (-(i + 1)) as u64 + 1
    }
}

fn power_of_two(k: u32) -> (p: u128)
    requires
        k < 63,
    ensures
        p == pow2(k as nat),
{
    proof {
        lemma2_to64();
        lemma2_to64_rest();
        lemma_pow2_strictly_increases(k as nat, 63);
        vstd::bits::lemma_u64_shl_is_mul(1, k as u64);
    }
    (1u64 << (k as u64)) as u128
}

fn order_of(x: u128, y: u128) -> (r: Order)
    ensures
        r == int_order(x as int, y as int),
{
    if x < y {
        Order::Less
    } else if x > y {
        Order::Greater
    } else {
        Order::Equal
    }
}

/// The order read from the other side.
pub fn flip(o: Order) -> (r: Order)
    ensures
        r == flipped(o),
{
    match o {
        Order::Less => Order::Greater,
        Order::Equal => Order::Equal,
        Order::Greater => Order::Less,
    }
}

/// How two integers compare.
pub fn order_ints(i: i64, j: i64) -> (r: Order)
    ensures
        r == int_order(i as int, j as int),
{
    if i < j {
        Order::Less
    } else if i > j {
        Order::Greater
    } else {
        Order::Equal
    }
}

/// How the whole number `a` compares with the magnitude of a binary64
/// number.
fn order_magnitude_with_float(a: u64, bits: u64) -> (r: Order)
    requires
        a <= 0x8000_0000_0000_0000,
    ensures
        r == int_order(a * pow2(1074), float_magnitude(bits)),
{
    let e = exponent_bits(bits);
    let m = fraction_bits(bits);
    let sig: u64 = if e == 0 {
        m
    } else {
        0x10_0000_0000_0000 + m
    };
    let ghost unit = pow2(1074) as int;
    let ghost mag = float_magnitude(bits);
    proof {
        lemma2_to64();
        lemma2_to64_rest();
        lemma_pow2_pos(1074);
        assert(sig == float_significand(bits));
    }
    if e >= 1075 {
        let k: u32 = e - 1075;
        let ghost whole = sig * pow2(k as nat);
        proof {
            // The magnitude is a whole number: sig * 2^k.
            assert(float_scale(bits) == k + 1074);
            lemma_pow2_split(sig as int, k as nat, 1074);
            assert(mag == whole * unit);
            lemma_pow2_pos(k as nat);
            lemma_order_scales(a as int, whole, unit);
            assert(int_order(a * unit, mag) == int_order(a as int, whole));
        }
        if k >= 11 {
            proof {
                if k > 11 {
                    lemma_pow2_strictly_increases(11, k as nat);
                }
                let p = pow2(k as nat) as int;
                assert(sig * p >= 0x8000_0000_0000_0000) by (nonlinear_arith)
                    requires
                        sig >= 0x10_0000_0000_0000,
                        p >= 0x800,
                ;
                assert(sig * p == 0x8000_0000_0000_0000 ==> sig == 0x10_0000_0000_0000 && p == 0x800)
                    by (nonlinear_arith)
                    requires
                        sig >= 0x10_0000_0000_0000,
                        p >= 0x800,
                ;
                assert(sig == 0x10_0000_0000_0000 && k == 11 ==> sig * p == 0x8000_0000_0000_0000);
            }
            if a == 0x8000_0000_0000_0000 && k == 11 && sig == 0x10_0000_0000_0000 {
                Order::Equal
            } else {
                Order::Less
            }
        } else {
            let p = power_of_two(k);
            proof {
                lemma_pow2_strictly_increases(k as nat, 11);
                assert(sig * p < 0x1_0000_0000_0000_0000) by (nonlinear_arith)
                    requires
                        sig < 0x20_0000_0000_0000,
                        0 < p < 0x800,
                ;
            }
            let rhs = (sig as u128) * p;
            order_of((a as u128), rhs)
        }
    } else {
        let s: u32 = if e == 0 {
            0
        } else {
            e - 1
        };
        let k: u32 = 1074 - s;
        let ghost part = pow2(s as nat) as int;
        let ghost lifted = a * pow2(k as nat);
        proof {
            // One whole unit is 2^k times 2^s.
            assert(float_scale(bits) == s);
            assert(mag == sig * part);
            lemma_pow2_split(a as int, k as nat, s as nat);
            assert(a * unit == lifted * part);
            lemma_pow2_pos(s as nat);
            lemma_pow2_pos(k as nat);
            lemma_order_scales(lifted, sig as int, part);
            assert(int_order(a * unit, mag) == int_order(lifted, sig as int));
        }
        if a == 0 {
            proof {
                assert(lifted == 0) by (nonlinear_arith)
                    requires
                        lifted == a * pow2(k as nat),
                        a == 0,
                ;
            }
            if sig == 0 {
                Order::Equal
            } else {
                Order::Less
            }
        } else if k >= 53 {
            proof {
                if k > 53 {
                    lemma_pow2_strictly_increases(53, k as nat);
                }
                let p = pow2(k as nat) as int;
                assert(a * p >= 0x20_0000_0000_0000) by (nonlinear_arith)
                    requires
                        a >= 1,
                        p >= 0x20_0000_0000_0000,
                ;
            }
            Order::Greater
        } else {
            let p = power_of_two(k);
            proof {
                lemma_pow2_strictly_increases(k as nat, 53);
                assert(a * p <= 0x8000_0000_0000_0000 * 0x20_0000_0000_0000) by (nonlinear_arith)
                    requires
                        a <= 0x8000_0000_0000_0000,
                        0 < p < 0x20_0000_0000_0000,
                ;
            }
            let lhs = (a as u128) * p;
            order_of(lhs, (sig as u128))
        }
    }
}

/// How the magnitudes of two binary64 numbers compare.
fn order_float_magnitudes(f: u64, g: u64) -> (r: Order)
    ensures
        r == int_order(float_magnitude(f), float_magnitude(g)),
{
    let ef = exponent_bits(f);
    let eg = exponent_bits(g);
    let mf = fraction_bits(f);
    let mg = fraction_bits(g);
    if ef < eg || (ef == eg && mf < mg) {
        proof {
            lemma_magnitude_grows(f, g);
        }
        Order::Less
    } else if ef > eg || (ef == eg && mf > mg) {
        proof {
            lemma_magnitude_grows(g, f);
        }
        Order::Greater
    } else {
        proof {
            lemma_same_parts(f, g);
        }
        Order::Equal
    }
}

/// How an integer and a binary64 number compare.
pub fn order_int_float(i: i64, f: u64) -> (r: Order)
    ensures
        r == int_float_order(i, f),
{
    let a = magnitude_of(i);
    let negative = sign_bit(f);
    proof {
        lemma_pow2_pos(1074);
        lemma_magnitude_not_negative(f);
        let unit = pow2(1074) as int;
        assert(i < 0 ==> i * unit == -(a * unit)) by (nonlinear_arith)
            requires
                i < 0 ==> a == -i,
        ;
        assert(a > 0 ==> a * unit > 0) by (nonlinear_arith)
            requires
                unit > 0,
        ;
        assert(a == 0 ==> a * unit == 0) by (nonlinear_arith);
        assert(i >= 0 ==> i * unit == a * unit) by (nonlinear_arith)
            requires
                i >= 0 ==> a == i,
        ;
    }
    if i < 0 {
        if negative {
            match order_magnitude_with_float(a, f) {
                Order::Less => Order::Greater,
                _ => Order::Less,
            }
        } else {
            Order::Less
        }
    } else {
        if negative {
            if a == 0 {
                match order_magnitude_with_float(a, f) {
                    Order::Equal => Order::Less,
                    _ => Order::Greater,
                }
            } else {
                Order::Greater
            }
        } else {
            match order_magnitude_with_float(a, f) {
                Order::Greater => Order::Greater,
                _ => Order::Less,
            }
        }
    }
}

/// How two binary64 numbers compare.
pub fn order_floats(f: u64, g: u64) -> (r: Order)
    ensures
        r == float_order(f, g),
{
    let nf = sign_bit(f);
    let ng = sign_bit(g);
    let by_magnitude = order_float_magnitudes(f, g);
    proof {
        lemma_zero_magnitude(f);
        lemma_zero_magnitude(g);
        if by_magnitude == Order::Equal {
            let ef = float_exponent(f);
            let eg = float_exponent(g);
            if ef < eg || (ef == eg && float_fraction(f) < float_fraction(g)) {
                lemma_magnitude_grows(f, g);
            } else if ef > eg || (ef == eg && float_fraction(f) > float_fraction(g)) {
                lemma_magnitude_grows(g, f);
            } else {
                lemma_same_parts(f, g);
            }
        }
    }
    if nf && ng {
        flip(by_magnitude)
    } else if !nf && !ng {
        by_magnitude
    } else if nf {
        Order::Less
    } else {
        Order::Greater
    }
}

} // verus!
