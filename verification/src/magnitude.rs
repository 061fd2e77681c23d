//! Magnitudes: the non-negative measurements that the physics engines
//! compare.
//!
//! A magnitude is a single-precision number that is zero, positive or
//! infinite, given by its bit pattern: eight bits of exponent above
//! twenty-three bits of fraction, the sign bit clear. The engines compare
//! bit patterns as integers; this module says which patterns are magnitudes,
//! which number each stands for, and that the two orders agree.

use vstd::arithmetic::power2::lemma_pow2_pos;
use vstd::arithmetic::power2::lemma_pow2_strictly_increases;
use vstd::arithmetic::power2::lemma_pow2_unfold;
use vstd::arithmetic::power2::pow2;
use vstd::prelude::*;

verus! {

/// The pattern of positive infinity, the largest magnitude.
pub const INFINITY: u32 = 0x7f80_0000;

/// Whether `bits` is the pattern of a magnitude: the sign bit is clear and
/// the pattern is not one of those that stand for no number.
pub open spec fn is_magnitude(bits: u32) -> bool {
    bits <= INFINITY
}

/// Tests whether `bits` is the pattern of a magnitude.
pub fn is_valid(bits: u32) -> (valid: bool)
    ensures
        valid == is_magnitude(bits),
{
    bits <= INFINITY
}

/// The exponent field of a pattern.
pub open spec fn exponent(bits: u32) -> nat {
    (bits / 0x80_0000) as nat
}

/// The fraction field of a pattern.
pub open spec fn fraction(bits: u32) -> nat {
    (bits % 0x80_0000) as nat
}

/// The number that a magnitude stands for, in units of 2^-149, the smallest
/// positive single-precision number. With exponent field zero that is the
/// fraction field itself; otherwise it is the fraction with its leading one,
/// doubled once for each step of the exponent above one. Infinity gets the
/// number that the next exponent would give, which lies above every finite
/// magnitude.
pub open spec fn scaled_value(bits: u32) -> nat {
    if exponent(bits) == 0 {
        fraction(bits)
    } else {
        (0x80_0000 + fraction(bits)) * pow2((exponent(bits) - 1) as nat)
    }
}

proof fn lemma_scaled_value_bounds(bits: u32)
    ensures
        exponent(bits) == 0 ==> scaled_value(bits) < 0x80_0000,
        exponent(bits) > 0 ==> 0x80_0000 * pow2((exponent(bits) - 1) as nat) <= scaled_value(bits)
            < 0x80_0000 * pow2(exponent(bits)),
{
    let e = exponent(bits);
    let f = fraction(bits);
    if e > 0 {
        let p = pow2((e - 1) as nat);
        lemma_pow2_pos((e - 1) as nat);
        lemma_pow2_unfold(e);
        assert(0x80_0000 * p <= (0x80_0000 + f) * p) by (nonlinear_arith)
            requires
                p > 0,
                f >= 0,
        ;
        assert((0x80_0000 + f) * p < 0x80_0000 * (2 * p)) by (nonlinear_arith)
            requires
                p > 0,
                f < 0x80_0000,
        ;
    }
}

/// A larger pattern stands for a larger number.
pub proof fn lemma_scaled_value_increases(a: u32, b: u32)
    requires
        a < b,
    ensures
        scaled_value(a) < scaled_value(b),
{
    let ea = exponent(a);
    let eb = exponent(b);
    let fa = fraction(a);
    let fb = fraction(b);
    assert(a == ea * 0x80_0000 + fa && b == eb * 0x80_0000 + fb);
    assert(ea <= eb);
    lemma_scaled_value_bounds(a);
    lemma_scaled_value_bounds(b);
    if ea == eb {
        assert(fa < fb);
        if ea > 0 {
            let p = pow2((ea - 1) as nat);
            lemma_pow2_pos((ea - 1) as nat);
            assert((0x80_0000 + fa) * p < (0x80_0000 + fb) * p) by (nonlinear_arith)
                requires
                    p > 0,
                    fa < fb,
            ;
        }
    } else {
        let q = pow2((eb - 1) as nat);
        lemma_pow2_pos((eb - 1) as nat);
        if ea == 0 {
            assert(0x80_0000 <= 0x80_0000 * q) by (nonlinear_arith)
                requires
                    q >= 1,
            ;
        } else {
            let p = pow2(ea);
            if ea < eb - 1 {
                lemma_pow2_strictly_increases(ea, (eb - 1) as nat);
            }
            assert(0x80_0000 * p <= 0x80_0000 * q) by (nonlinear_arith)
                requires
                    p <= q,
            ;
        }
    }
}

/// Magnitudes compare as the numbers that they stand for: one pattern is
/// below another exactly if its number is, and two patterns are equal
/// exactly if their numbers are.
pub proof fn lemma_magnitudes_compare_as_numbers(a: u32, b: u32)
    requires
        is_magnitude(a),
        is_magnitude(b),
    ensures
        a < b <==> scaled_value(a) < scaled_value(b),
        a == b <==> scaled_value(a) == scaled_value(b),
{
    if a < b {
        lemma_scaled_value_increases(a, b);
    } else if b < a {
        lemma_scaled_value_increases(b, a);
    }
}

/// Zero is the magnitude zero, the pattern of one stands for 2^149 units,
/// and infinity lies above every other magnitude.
pub proof fn lemma_magnitude_landmarks(bits: u32)
    requires
        is_magnitude(bits),
    ensures
        scaled_value(0) == 0,
        scaled_value(1) == 1,
        scaled_value(0x80_0000) == 0x80_0000,
        scaled_value(0x3f80_0000) == pow2(149),
        bits != INFINITY ==> scaled_value(bits) < scaled_value(INFINITY),
{
    assert(pow2(0) == 1) by {
        vstd::arithmetic::power2::lemma2_to64();
    }
    assert(exponent(0x80_0000) == 1 && fraction(0x80_0000) == 0);
    assert(scaled_value(0x80_0000) == 0x80_0000 * pow2(0));
    assert(exponent(0x3f80_0000) == 127 && fraction(0x3f80_0000) == 0);
    vstd::arithmetic::power2::lemma_pow2_adds(23, 126);
    assert(pow2(23) == 0x80_0000) by {
        vstd::arithmetic::power2::lemma2_to64();
    }
    if bits != INFINITY {
        lemma_scaled_value_increases(bits, INFINITY);
    }
}

} // verus!
