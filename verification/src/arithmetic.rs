//! Sums and products of patterns, and the blend of a sample with its
//! filtered value.
//!
//! Each operation gives the pattern nearest to its exact result, as a
//! single-precision unit does.

use vstd::arithmetic::power2::lemma2_to64;
use vstd::arithmetic::power2::lemma_pow2_adds;
use vstd::arithmetic::power2::lemma_pow2_pos;
use vstd::arithmetic::power2::pow2;
use vstd::bits::lemma_u64_shl_is_mul;
use vstd::prelude::*;
use crate::binary32::is_finite;
use crate::binary32::is_infinite;
use crate::binary32::is_nan;
use crate::binary32::is_negative;
use crate::binary32::is_zero;
use crate::binary32::same_number;
use crate::binary32::scale;
use crate::binary32::scale_of;
use crate::binary32::significand;
use crate::binary32::significand_of;
use crate::binary32::INFINITY;
use crate::binary32::ONE;
use crate::binary32::SIGN;
use crate::binary32::ZERO;
use crate::rounding::compose;
use crate::rounding::lemma_far_sum;
use crate::rounding::lemma_pow2_increases;
use crate::rounding::lemma_rounded_exact;
use crate::rounding::lemma_rounded_zero;
use crate::rounding::rounded;

verus! {

/// The pattern that is given where a result is not a number.
pub const NOT_A_NUMBER: u32 = 0x7FC0_0000;

/// The pattern of the same magnitude and the other sign.
pub open spec fn negated(bits: u32) -> u32 {
    if bits >= SIGN {
        (bits - SIGN) as u32
    } else {
        (bits + SIGN) as u32
    }
}

/// Infinity with the given sign.
pub open spec fn infinity(negative: bool) -> u32 {
    if negative {
        (SIGN + INFINITY) as u32
    } else {
        INFINITY
    }
}

/// The pattern of the product of two patterns. A product with what is not a
/// number, and the product of zero and infinity, is not a number; infinity
/// times anything else is infinity; the sign is negative where the signs of
/// the two differ.
pub open spec fn product(a: u32, b: u32) -> u32 {
    if is_nan(a) || is_nan(b) {
        NOT_A_NUMBER
    } else if is_infinite(a) || is_infinite(b) {
        if is_zero(a) || is_zero(b) {
            NOT_A_NUMBER
        } else {
            infinity(is_negative(a) != is_negative(b))
        }
    } else {
        rounded(
            is_negative(a) != is_negative(b),
            significand(a) * significand(b),
            scale(a) + scale(b),
        )
    }
}

/// The value of a finite pattern as a signed count of units of `2^common`,
/// for a `common` that is not above the scale of the pattern.
pub open spec fn aligned(bits: u32, common: int) -> int {
    let count = significand(bits) * pow2((scale(bits) - common) as nat);
    if is_negative(bits) {
        -count
    } else {
        count as int
    }
}

/// The smaller of the scales of two patterns.
pub open spec fn common_scale(a: u32, b: u32) -> int {
    if scale(a) <= scale(b) {
        scale(a)
    } else {
        scale(b)
    }
}

/// The pattern of the sum of two patterns. A sum with what is not a number,
/// and the sum of the two infinities, is not a number; infinity plus
/// anything else is that infinity; a sum that is exactly zero is negative
/// only where both patterns are.
pub open spec fn sum(a: u32, b: u32) -> u32 {
    if is_nan(a) || is_nan(b) {
        NOT_A_NUMBER
    } else if is_infinite(a) {
        if is_infinite(b) && is_negative(a) != is_negative(b) {
            NOT_A_NUMBER
        } else {
            a
        }
    } else if is_infinite(b) {
        b
    } else {
        let common = common_scale(a, b);
        let total = aligned(a, common) + aligned(b, common);
        if total == 0 {
            if is_negative(a) && is_negative(b) {
                SIGN
            } else {
                ZERO
            }
        } else if total < 0 {
            rounded(true, (-total) as nat, common)
        } else {
            rounded(false, total as nat, common)
        }
    }
}

/// The pattern of the difference of two patterns: the sum of the first and
/// the second with its sign turned.
pub open spec fn difference(a: u32, b: u32) -> u32 {
    sum(a, negated(b))
}

/// The output sample for an input sample and its filtered value:
/// `dry * (1 - mix) + wet * mix`, each step rounded as the unit rounds it.
pub open spec fn blend(dry: u32, wet: u32, mix: u32) -> u32 {
    sum(product(dry, difference(ONE, mix)), product(wet, mix))
}

/// A number times one is the number.
pub proof fn lemma_product_with_one(bits: u32)
    requires
        !is_nan(bits),
    ensures
        product(bits, ONE) == bits,
        product(ONE, bits) == bits,
{
    lemma2_to64();
    if is_finite(bits) {
        lemma_rounded_exact(is_negative(bits), significand(bits), scale(bits), 23);
        assert(significand(ONE) * significand(bits) == significand(bits) * significand(ONE))
            by (nonlinear_arith);
    }
}

/// A finite number times zero is zero, negative where the signs of the two
/// differ.
pub proof fn lemma_product_with_zero(bits: u32, zero: u32)
    requires
        is_finite(bits),
        is_zero(zero),
    ensures
        is_zero(product(bits, zero)),
        is_zero(product(zero, bits)),
{
    assert(significand(bits) * significand(zero) == 0) by (nonlinear_arith)
        requires
            significand(zero) == 0,
    ;
    assert(significand(zero) * significand(bits) == 0) by (nonlinear_arith)
        requires
            significand(zero) == 0,
    ;
    lemma_rounded_zero(is_negative(bits) != is_negative(zero), scale(bits) + scale(zero));
}

/// A number plus zero is the number; only the sign of a zero may come out
/// otherwise.
pub proof fn lemma_sum_with_zero(bits: u32, zero: u32)
    requires
        !is_nan(bits),
        is_zero(zero),
    ensures
        same_number(sum(bits, zero), bits),
        same_number(sum(zero, bits), bits),
        !is_zero(bits) ==> sum(bits, zero) == bits && sum(zero, bits) == bits,
{
    if is_finite(bits) {
        let shift = (scale(bits) + 149) as nat;
        let count = significand(bits) * pow2(shift);
        lemma_pow2_pos(shift);
        assert(significand(zero) * pow2(0) == 0) by (nonlinear_arith)
            requires
                significand(zero) == 0,
        ;
        if significand(bits) == 0 {
            assert(count == 0) by (nonlinear_arith)
                requires
                    count == significand(bits) * pow2(shift),
                    significand(bits) == 0,
            ;
        } else {
            assert(count > 0) by (nonlinear_arith)
                requires
                    count == significand(bits) * pow2(shift),
                    significand(bits) > 0,
                    pow2(shift) > 0,
            ;
            lemma_rounded_exact(is_negative(bits), significand(bits), scale(bits), shift);
        }
    }
}

/// With no share for the filtered signal, the output is the input: the same
/// number, and the same pattern unless the input is a zero. This needs an
/// input that is a number and a filtered value that is finite.
pub proof fn lemma_blend_all_dry(dry: u32, wet: u32, mix: u32)
    requires
        is_zero(mix),
        !is_nan(dry),
        is_finite(wet),
    ensures
        same_number(blend(dry, wet, mix), dry),
        !is_zero(dry) ==> blend(dry, wet, mix) == dry,
{
    lemma_sum_with_zero(ONE, negated(mix));
    lemma_product_with_one(dry);
    lemma_product_with_zero(wet, mix);
    lemma_sum_with_zero(dry, product(wet, mix));
}

/// With the whole share for the filtered signal, the output is the filtered
/// value: the same number, and the same pattern unless that value is a zero.
/// This needs an input that is finite and a filtered value that is a number.
pub proof fn lemma_blend_all_wet(dry: u32, wet: u32)
    requires
        is_finite(dry),
        !is_nan(wet),
    ensures
        same_number(blend(dry, wet, ONE), wet),
        !is_zero(wet) ==> blend(dry, wet, ONE) == wet,
{
    lemma2_to64();
    assert(significand(ONE) * pow2(0) == 0x80_0000) by (nonlinear_arith)
        requires
            significand(ONE) == 0x80_0000,
            pow2(0) == 1,
    ;
    lemma_product_with_zero(dry, ZERO);
    lemma_product_with_one(wet);
    lemma_sum_with_zero(wet, product(dry, ZERO));
}

/// Computes `sum` for two finite patterns of which the first has the larger
/// scale, or the same.
fn add_finite(high: u32, low: u32) -> (result: u32)
    requires
        is_finite(high),
        is_finite(low),
        scale(high) >= scale(low),
    ensures
        result == sum(high, low),
{
    let negative_high: bool = high >= SIGN;
    let negative_low: bool = low >= SIGN;
    let digits_high: u64 = significand_of(high);
    let digits_low: u64 = significand_of(low);
    let scale_high: i32 = scale_of(high);
    let scale_low: i32 = scale_of(low);
    let gap: u32 = (scale_high - scale_low) as u32;
    proof {
        lemma2_to64();
        assert(digits_low * pow2(0) == digits_low) by (nonlinear_arith)
            requires
                pow2(0) == 1,
        ;
    }
    if gap >= 39 {
        proof {
            lemma_far_sum(
                negative_high,
                digits_high as nat,
                scale_high as int,
                digits_low as nat,
                gap as nat,
                negative_high == negative_low,
            );
        }
        return high;
    }
    proof {
        lemma_pow2_increases(gap as nat, 38);
        lemma_pow2_adds(32, 6);
        assert(digits_high * pow2(gap as nat) <= 0xFF_FFFF * 0x40_0000_0000) by (nonlinear_arith)
            requires
                digits_high <= 0xFF_FFFF,
                pow2(gap as nat) <= 0x40_0000_0000,
        ;
        lemma_u64_shl_is_mul(digits_high, gap as u64);
    }
    let wide: u64 = digits_high << gap;
    let signed_high: i64 = if negative_high {
        -(wide as i64)
    } else {
        wide as i64
    };
    let signed_low: i64 = if negative_low {
        -(digits_low as i64)
    } else {
        digits_low as i64
    };
    let total: i64 = signed_high + signed_low;
    if total == 0 {
        if negative_high && negative_low {
            SIGN
        } else {
            ZERO
        }
    } else if total < 0 {
        compose(true, (-total) as u64, scale_low)
    } else {
        compose(false, total as u64, scale_low)
    }
}

/// Computes `sum`.
pub fn add_patterns(a: u32, b: u32) -> (result: u32)
    ensures
        result == sum(a, b),
{
    let magnitude_a: u32 = a % SIGN;
    let magnitude_b: u32 = b % SIGN;
    if magnitude_a > INFINITY || magnitude_b > INFINITY {
        return NOT_A_NUMBER;
    }
    if magnitude_a == INFINITY {
        if magnitude_b == INFINITY && (a >= SIGN) != (b >= SIGN) {
            return NOT_A_NUMBER;
        }
        return a;
    }
    if magnitude_b == INFINITY {
        return b;
    }
    if scale_of(a) >= scale_of(b) {
        add_finite(a, b)
    } else {
        add_finite(b, a)
    }
}

/// Computes `difference`.
pub fn subtract_patterns(a: u32, b: u32) -> (result: u32)
    ensures
        result == difference(a, b),
{
    add_patterns(a, negate(b))
}

/// Computes `blend`.
pub fn blend_samples(dry: u32, wet: u32, mix: u32) -> (output: u32)
    ensures
        output == blend(dry, wet, mix),
{
    add_patterns(
        multiply_patterns(dry, subtract_patterns(ONE, mix)),
        multiply_patterns(wet, mix),
    )
}

/// Computes `negated`.
pub fn negate(bits: u32) -> (turned: u32)
    ensures
        turned == negated(bits),
{
    if bits >= SIGN {
        bits - SIGN
    } else {
        bits + SIGN
    }
}

/// Computes `product`.
pub fn multiply_patterns(a: u32, b: u32) -> (result: u32)
    ensures
        result == product(a, b),
{
    let magnitude_a: u32 = a % SIGN;
    let magnitude_b: u32 = b % SIGN;
    if magnitude_a > INFINITY || magnitude_b > INFINITY {
        return NOT_A_NUMBER;
    }
    let negative: bool = (a >= SIGN) != (b >= SIGN);
    if magnitude_a == INFINITY || magnitude_b == INFINITY {
        if magnitude_a == 0 || magnitude_b == 0 {
            return NOT_A_NUMBER;
        }
        return if negative {
            SIGN + INFINITY
        } else {
            INFINITY
        };
    }
    let digits_a: u64 = significand_of(a);
    let digits_b: u64 = significand_of(b);
    assert(digits_a * digits_b <= 0xFF_FFFF * 0xFF_FFFF) by (nonlinear_arith)
        requires
            digits_a <= 0xFF_FFFF,
            digits_b <= 0xFF_FFFF,
    ;
    compose(negative, digits_a * digits_b, scale_of(a) + scale_of(b))
}

} // verus!
