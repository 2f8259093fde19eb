//! From an exact result to the pattern that is given for it.
//!
//! The exact result of an operation on patterns is a whole number times a
//! power of two. The pattern given for it is the nearest one, and of two that
//! are equally near the one with the even significand; a result beyond the
//! largest finite pattern is given infinity.

use vstd::arithmetic::div_mod::lemma_basic_div;
use vstd::arithmetic::div_mod::lemma_div_by_multiple;
use vstd::arithmetic::div_mod::lemma_div_is_ordered;
use vstd::arithmetic::div_mod::lemma_div_is_ordered_by_denominator;
use vstd::arithmetic::div_mod::lemma_div_multiples_vanish_quotient;
use vstd::arithmetic::div_mod::lemma_fundamental_div_mod;
use vstd::arithmetic::div_mod::lemma_fundamental_div_mod_converse;
use vstd::arithmetic::div_mod::lemma_fundamental_div_mod_converse_div;
use vstd::arithmetic::div_mod::lemma_multiply_divide_lt;
use vstd::arithmetic::div_mod::lemma_small_mod;
use vstd::arithmetic::mul::lemma_mul_inequality;
use vstd::arithmetic::mul::lemma_mul_strict_inequality;
use vstd::arithmetic::power2::lemma2_to64;
use vstd::arithmetic::power2::lemma_pow2_adds;
use vstd::arithmetic::power2::lemma_pow2_pos;
use vstd::arithmetic::power2::lemma_pow2_strictly_increases;
use vstd::arithmetic::power2::lemma_pow2_unfold;
use vstd::arithmetic::power2::pow2;
use vstd::bits::lemma_u64_pow2_no_overflow;
use vstd::bits::lemma_u64_shl_is_mul;
use vstd::prelude::*;
use vstd::std_specs::bits::u64_leading_zeros;
use crate::binary32::is_finite;
use crate::binary32::is_negative;
use crate::binary32::scale;
use crate::binary32::scale_of;
use crate::binary32::significand;
use crate::binary32::significand_of;
use crate::binary32::value;
use crate::binary32::INFINITY;
use crate::binary32::SIGN;
use crate::binary32::ZERO;

verus! {

/// The whole number nearest to `whole / unit`, where a quotient that lies
/// halfway between two whole numbers goes to the even one.
pub open spec fn nearest_even(whole: nat, unit: nat) -> nat {
    let below = whole / unit;
    let left = whole % unit;
    if 2 * left < unit || (2 * left == unit && below % 2 == 0) {
        below
    } else {
        below + 1
    }
}

/// The number of bits of a whole number, from its leading one down.
pub open spec fn bit_length(whole: nat) -> nat
    decreases whole,
{
    if whole == 0 {
        0
    } else {
        1 + bit_length(whole / 2)
    }
}

/// The scale at which `whole * 2^scale` has a significand of twenty-four
/// bits, but never less than the smallest scale a pattern has.
pub open spec fn target_scale(whole: nat, scale: int) -> int {
    if scale + bit_length(whole) - 24 > -149 {
        scale + bit_length(whole) - 24
    } else {
        -149
    }
}

/// The pattern with the given sign whose magnitude is
/// `significand * 2^scale`, for a significand of at most twenty-four bits
/// that is either at least `2^23` or scaled by `2^-149`. A magnitude beyond
/// the largest finite one gives infinity.
pub open spec fn pattern_of(negative: bool, significand: nat, scale: int) -> u32 {
    let sign: nat = if negative {
        SIGN as nat
    } else {
        0
    };
    if significand < 0x80_0000 {
        (sign + significand) as u32
    } else if scale + 150 >= 255 {
        (sign + INFINITY) as u32
    } else {
        (sign + (scale + 150) * 0x80_0000 + (significand - 0x80_0000)) as u32
    }
}

/// The pattern nearest to `whole * 2^scale`, with the given sign: the whole
/// number is brought to the target scale, cut to the nearest significand
/// where bits have to go, and to the even one of two that are equally near.
pub open spec fn rounded(negative: bool, whole: nat, scale: int) -> u32 {
    let target = target_scale(whole, scale);
    if target >= scale {
        let kept = nearest_even(whole, pow2((target - scale) as nat));
        if kept == 0x100_0000 {
            pattern_of(negative, 0x80_0000, target + 1)
        } else {
            pattern_of(negative, kept, target)
        }
    } else {
        pattern_of(negative, whole * pow2((scale - target) as nat), target)
    }
}

/// Computes `rounded`.
pub fn compose(negative: bool, whole: u64, scale: i32) -> (bits: u32)
    ensures
        bits == rounded(negative, whole as nat, scale as int),
{
    let sign_bits: u32 = if negative {
        SIGN
    } else {
        0
    };
    let zeros: u32 = whole.leading_zeros();
    proof {
        lemma_bit_length_of_u64(whole);
        lemma_bit_length_bounds(whole as nat);
        lemma2_to64();
    }
    let length: i64 = 64 - zeros as i64;
    let mut target: i64 = scale as i64 + length - 24;
    if target < -149 {
        target = -149;
    }
    let mut kept: u64;
    if target >= scale as i64 {
        let excess: i64 = target - scale as i64;
        proof {
            lemma_pow2_increases(length as nat, (excess + 24) as nat);
            lemma_pow2_adds(excess as nat, 24);
            lemma_multiply_divide_lt(whole as int, pow2(excess as nat) as int, 0x100_0000);
        }
        if excess >= 64 {
            proof {
                lemma_pow2_increases(64, excess as nat);
                lemma_basic_div(whole as int, pow2(excess as nat) as int);
                lemma_small_mod(whole as nat, pow2(excess as nat));
                if excess >= 65 {
                    lemma_pow2_increases(65, excess as nat);
                    lemma_pow2_unfold(65);
                }
            }
            kept = if excess == 64 && whole > 0x8000_0000_0000_0000 {
                1
            } else {
                0
            };
        } else {
            proof {
                lemma_u64_pow2_no_overflow(excess as nat);
                lemma_u64_shl_is_mul(1, excess as u64);
                lemma_pow2_increases(excess as nat, 63);
                lemma_pow2_unfold(64);
            }
            let unit: u64 = 1u64 << (excess as u32);
            let below: u64 = whole / unit;
            let left: u64 = whole % unit;
            kept = if 2 * left < unit || (2 * left == unit && below % 2 == 0) {
                below
            } else {
                below + 1
            };
        }
    } else {
        let shift: u32 = (scale as i64 - target) as u32;
        proof {
            lemma_pow2_adds(length as nat, shift as nat);
            if whole > 0 {
                lemma_mul_strict_inequality(
                    whole as int,
                    pow2(length as nat) as int,
                    pow2(shift as nat) as int,
                );
            } else {
                assert(whole * pow2(shift as nat) == 0) by (nonlinear_arith)
                    requires
                        whole == 0,
                ;
            }
            lemma_u64_shl_is_mul(whole, shift as u64);
        }
        kept = whole << shift;
    }
    if kept == 0x100_0000 {
        kept = 0x80_0000;
        target = target + 1;
    }
    let magnitude_bits: u32 = if kept < 0x80_0000 {
        kept as u32
    } else if target + 150 >= 255 {
        INFINITY
    } else {
        (target + 150) as u32 * 0x80_0000 + (kept - 0x80_0000) as u32
    };
    sign_bits + magnitude_bits
}

/// The whole number nearest to `factor` times the magnitude of a finite
/// pattern, where a product that lies halfway between two whole numbers goes
/// to the larger.
pub open spec fn rounded_multiple(bits: u32, factor: nat) -> nat {
    let product = factor * significand(bits);
    if scale(bits) >= 0 {
        product * pow2(scale(bits) as nat)
    } else {
        let unit = pow2((-scale(bits)) as nat);
        (2 * product + unit) / (2 * unit)
    }
}

/// Computes `rounded_multiple`, or `u64::MAX` where the result is larger than
/// that.
pub fn round_multiple(bits: u32, factor: u32) -> (nearest: u64)
    ensures
        rounded_multiple(bits, factor as nat) <= u64::MAX ==> nearest == rounded_multiple(
            bits,
            factor as nat,
        ),
        rounded_multiple(bits, factor as nat) > u64::MAX ==> nearest == u64::MAX,
{
    let digits: u64 = significand_of(bits);
    let power: i32 = scale_of(bits);
    assert(factor as int * digits as int <= 0xFFFF_FFFF * 0xFF_FFFF) by (nonlinear_arith)
        requires
            factor <= 0xFFFF_FFFF,
            digits <= 0xFF_FFFF,
    ;
    let product: u64 = factor as u64 * digits;
    proof {
        lemma2_to64();
    }
    if power >= 0 {
        let shift: u32 = power as u32;
        if shift >= 64 {
            proof {
                lemma_pow2_increases(64, shift as nat);
                if product > 0 {
                    lemma_mul_inequality(1, product as int, pow2(shift as nat) as int);
                } else {
                    assert(product * pow2(shift as nat) == 0) by (nonlinear_arith)
                        requires
                            product == 0,
                    ;
                }
            }
            if product == 0 {
                0
            } else {
                u64::MAX
            }
        } else {
            proof {
                lemma_u64_pow2_no_overflow(shift as nat);
                lemma_u64_shl_is_mul(1, shift as u64);
            }
            let unit: u64 = 1u64 << shift;
            assert(product as int * unit as int <= 0x100_0000_0000_0000 * 0x1_0000_0000_0000_0000)
                by (nonlinear_arith)
                requires
                    product <= 0x100_0000_0000_0000,
                    unit <= 0x1_0000_0000_0000_0000,
            ;
            let wide: u128 = product as u128 * unit as u128;
            if wide > u64::MAX as u128 {
                u64::MAX
            } else {
                wide as u64
            }
        }
    } else {
        let shift: u32 = (-power) as u32;
        if shift >= 64 {
            proof {
                lemma_pow2_increases(64, shift as nat);
                let unit = pow2(shift as nat) as int;
                lemma_basic_div(2 * product + unit, 2 * unit);
            }
            0
        } else {
            proof {
                lemma_u64_pow2_no_overflow(shift as nat);
                lemma_u64_shl_is_mul(1, shift as u64);
            }
            let unit: u64 = 1u64 << shift;
            proof {
                lemma_div_is_ordered_by_denominator(2 * product + unit, 2, 2 * unit);
            }
            let nearest: u128 = (2 * (product as u128) + unit as u128) / (2 * (unit as u128));
            nearest as u64
        }
    }
}

/// The distance between two whole numbers.
pub open spec fn distance(a: nat, b: nat) -> nat {
    if a >= b {
        (a - b) as nat
    } else {
        (b - a) as nat
    }
}

/// No multiple of the unit is nearer to a whole number than the one that
/// `nearest_even` counts, and a multiple that is just as near has an odd
/// count.
pub proof fn lemma_nearest_even_is_nearest(whole: nat, unit: nat, other: nat)
    requires
        unit > 0,
    ensures
        distance(nearest_even(whole, unit) * unit, whole) <= distance(other * unit, whole),
        2 * distance(nearest_even(whole, unit) * unit, whole) <= unit,
        other != nearest_even(whole, unit) && distance(other * unit, whole) == distance(
            nearest_even(whole, unit) * unit,
            whole,
        ) ==> nearest_even(whole, unit) % 2 == 0,
{
    let below = whole / unit;
    let left = whole % unit;
    lemma_fundamental_div_mod(whole as int, unit as int);
    assert(whole == below * unit + left) by (nonlinear_arith)
        requires
            whole == unit * below + left,
    ;
    assert((below + 1) * unit == below * unit + unit) by (nonlinear_arith);
    if other <= below {
        assert(other * unit <= below * unit) by (nonlinear_arith)
            requires
                other <= below,
                unit > 0,
        ;
        if other < below {
            assert(other * unit + unit <= below * unit) by (nonlinear_arith)
                requires
                    other + 1 <= below,
                    unit > 0,
            ;
        }
    } else {
        assert(other * unit >= (below + 1) * unit) by (nonlinear_arith)
            requires
                other >= below + 1,
                unit > 0,
        ;
        if other > below + 1 {
            assert(other * unit >= (below + 1) * unit + unit) by (nonlinear_arith)
                requires
                    other >= below + 2,
                    unit > 0,
            ;
        }
    }
}

/// A finite pattern is the pattern of its own sign, significand and scale.
pub proof fn lemma_pattern_of_parts(bits: u32)
    requires
        is_finite(bits),
    ensures
        pattern_of(is_negative(bits), significand(bits), scale(bits)) == bits,
{
}

/// A pattern made of a sign, a significand and a scale that a finite pattern
/// can have is finite and has the value `significand * 2^scale`, with that
/// sign.
pub proof fn lemma_value_of_pattern(negative: bool, digits: nat, at: int)
    requires
        digits < 0x100_0000,
        -149 <= at <= 104,
        digits >= 0x80_0000 || at == -149,
    ensures
        is_finite(pattern_of(negative, digits, at)),
        is_negative(pattern_of(negative, digits, at)) == negative,
        significand(pattern_of(negative, digits, at)) == digits,
        digits > 0 ==> scale(pattern_of(negative, digits, at)) == at,
        negative ==> value(pattern_of(negative, digits, at)) == -(digits * pow2((at + 149) as nat)),
        !negative ==> value(pattern_of(negative, digits, at)) == digits * pow2((at + 149) as nat),
{
}

/// The multiple of the unit of the target scale that is nearest to
/// `whole * 2^at`, as a count of units of `2^-149`: the exact number where no
/// bits have to go, and the multiple that `nearest_even` counts where some
/// have.
pub open spec fn nearest_worth(whole: nat, at: int) -> nat {
    let target = target_scale(whole, at);
    if target >= at {
        nearest_even(whole, pow2((target - at) as nat)) * pow2((target + 149) as nat)
    } else {
        whole * pow2((at + 149) as nat)
    }
}

/// A finite result of `rounded` has the sign asked for and is worth
/// `nearest_worth`. With `lemma_nearest_even_is_nearest` this says that no
/// multiple of the unit of the target scale is nearer to the exact number.
pub proof fn lemma_value_of_rounded(negative: bool, whole: nat, at: int)
    requires
        is_finite(rounded(negative, whole, at)),
    ensures
        negative ==> value(rounded(negative, whole, at)) == -nearest_worth(whole, at),
        !negative ==> value(rounded(negative, whole, at)) == nearest_worth(whole, at),
{
    lemma2_to64();
    let target = target_scale(whole, at);
    let length = bit_length(whole);
    lemma_bit_length_bounds(whole);
    if whole == 0 {
        if target >= at {
            lemma_pow2_pos((target - at) as nat);
        }
        assert(0 * pow2(0) == 0) by (nonlinear_arith);
    } else if target >= at {
        let excess = (target - at) as nat;
        let unit = pow2(excess);
        let kept = nearest_even(whole, unit);
        let step = pow2((target + 149) as nat);
        lemma_pow2_increases(length, excess + 24);
        lemma_pow2_adds(excess, 24);
        lemma_multiply_divide_lt(whole as int, unit as int, 0x100_0000);
        if target > -149 {
            lemma_pow2_adds(excess, 23);
            lemma_div_is_ordered(
                (0x80_0000 * unit) as int,
                whole as int,
                unit as int,
            );
            lemma_div_by_multiple(0x80_0000, unit as int);
        }
        if kept == 0x100_0000 {
            lemma_value_of_pattern(negative, 0x80_0000, target + 1);
            lemma_pow2_unfold((target + 150) as nat);
            assert(0x80_0000 * (2 * step) == 0x100_0000 * step) by (nonlinear_arith);
        }
    } else {
        let shift = (at - target) as nat;
        lemma_pow2_adds(length, shift);
        lemma_mul_strict_inequality(whole as int, pow2(length) as int, pow2(shift) as int);
        if target > -149 {
            lemma_pow2_adds((length - 1) as nat, shift);
            lemma_mul_inequality(
                pow2((length - 1) as nat) as int,
                whole as int,
                pow2(shift) as int,
            );
        }
        lemma_pow2_adds(shift, (target + 149) as nat);
        assert(whole * pow2(shift) * pow2((target + 149) as nat) == whole * (pow2(shift) * pow2(
            (target + 149) as nat,
        ))) by (nonlinear_arith);
    }
}

/// The rounded multiple of a pattern that is not negative is the whole number
/// nearest to `factor * value / 2^149`, halves going up: the whole part of
/// that quotient plus one half.
pub proof fn lemma_rounded_multiple_is_nearest(bits: u32, factor: nat)
    requires
        is_finite(bits),
        !is_negative(bits),
    ensures
        rounded_multiple(bits, factor) == (2 * factor * value(bits) + pow2(149)) / (2 * pow2(149) as int),
{
    let product = factor * significand(bits);
    lemma_pow2_pos(149);
    if scale(bits) >= 0 {
        let up = pow2(scale(bits) as nat);
        lemma_pow2_adds(scale(bits) as nat, 149);
        let whole = product * up;
        assert(2 * factor * value(bits) + pow2(149) == whole * (2 * pow2(149)) + pow2(149))
            by (nonlinear_arith)
            requires
                value(bits) == significand(bits) * (up * pow2(149)),
                whole == factor * significand(bits) * up,
        ;
        lemma_fundamental_div_mod_converse_div(
            2 * factor * value(bits) + pow2(149),
            2 * pow2(149) as int,
            whole as int,
            pow2(149) as int,
        );
    } else {
        let unit = pow2((-scale(bits)) as nat);
        let rest = pow2((scale(bits) + 149) as nat);
        lemma_pow2_adds((-scale(bits)) as nat, (scale(bits) + 149) as nat);
        assert(2 * factor * value(bits) + pow2(149) == rest * (2 * product + unit)) by (nonlinear_arith)
            requires
                value(bits) == significand(bits) * rest,
                product == factor * significand(bits),
                pow2(149) == unit * rest,
        ;
        assert(2 * pow2(149) == rest * (2 * unit)) by (nonlinear_arith)
            requires
                pow2(149) == unit * rest,
        ;
        lemma_div_multiples_vanish_quotient(
            rest as int,
            (2 * product + unit) as int,
            (2 * unit) as int,
        );
    }
}

/// A number that a pattern holds exactly is given that pattern, however its
/// significand is written out at a smaller scale.
pub proof fn lemma_rounded_exact(negative: bool, digits: nat, at: int, shift: nat)
    requires
        digits < 0x100_0000,
        at >= -149,
        digits >= 0x80_0000 || at == -149,
    ensures
        rounded(negative, digits * pow2(shift), at - shift) == pattern_of(negative, digits, at),
{
    lemma2_to64();
    let unit = pow2(shift);
    let whole = digits * unit;
    lemma_pow2_pos(shift);
    lemma_pow2_adds(23, shift);
    lemma_pow2_adds(24, shift);
    assert(whole < 0x100_0000 * unit) by (nonlinear_arith)
        requires
            whole == digits * unit,
            digits < 0x100_0000,
            unit > 0,
    ;
    if digits >= 0x80_0000 {
        assert(0x80_0000 * unit <= whole) by (nonlinear_arith)
            requires
                whole == digits * unit,
                digits >= 0x80_0000,
                unit > 0,
        ;
        lemma_bit_length_between(whole, 24 + shift);
    } else {
        assert(whole < 0x80_0000 * unit) by (nonlinear_arith)
            requires
                whole == digits * unit,
                digits < 0x80_0000,
                unit > 0,
        ;
        lemma_bit_length_bounds(whole);
        if bit_length(whole) > 23 + shift {
            lemma_pow2_increases(23 + shift, (bit_length(whole) - 1) as nat);
        }
    }
    lemma_fundamental_div_mod_converse(whole as int, unit as int, digits as int, 0);
}

/// Nothing given a pattern is zero, with the sign asked for.
pub proof fn lemma_rounded_zero(negative: bool, at: int)
    ensures
        negative ==> rounded(negative, 0, at) == SIGN,
        !negative ==> rounded(negative, 0, at) == ZERO,
{
    let target = target_scale(0, at);
    if target >= at {
        lemma_pow2_pos((target - at) as nat);
    }
}

/// The distance or the sum of two counts, as the signs of the two numbers
/// ask: numbers of the same sign add up, numbers of different signs take away
/// from each other.
pub open spec fn combined(high: nat, low: nat, same_sign: bool) -> nat {
    if same_sign {
        high + low
    } else {
        (high - low) as nat
    }
}

/// Where one number is so much smaller than another that it lies below a
/// quarter of the last place of the other, their sum and their difference are
/// nearest to the other.
pub proof fn lemma_far_sum(
    negative: bool,
    high: nat,
    high_scale: int,
    low: nat,
    gap: nat,
    same_sign: bool,
)
    requires
        0x80_0000 <= high < 0x100_0000,
        low < 0x100_0000,
        gap >= 26,
        high_scale - gap >= -149,
    ensures
        high * pow2(gap) > low,
        rounded(negative, combined(high * pow2(gap), low, same_sign), high_scale - gap)
            == pattern_of(negative, high, high_scale),
{
    lemma2_to64();
    let unit = pow2(gap);
    lemma_pow2_increases(26, gap);
    lemma_pow2_adds(23, gap);
    lemma_pow2_adds(24, gap);
    lemma_pow2_adds(22, gap);
    assert(0x80_0000 * unit <= high * unit < 0x100_0000 * unit) by (nonlinear_arith)
        requires
            0x80_0000 <= high < 0x100_0000,
            unit > 0,
    ;
    if same_sign || low == 0 {
        let whole = high * unit + low;
        assert(whole < 0x100_0000 * unit) by (nonlinear_arith)
            requires
                whole == high * unit + low,
                low < unit,
                high < 0x100_0000,
        ;
        lemma_bit_length_between(whole, 24 + gap);
        lemma_fundamental_div_mod_converse(whole as int, unit as int, high as int, low as int);
    } else if high > 0x80_0000 {
        let whole = (high * unit - low) as nat;
        assert(whole == (high - 1) * unit + (unit - low)) by (nonlinear_arith)
            requires
                whole == high * unit - low,
        ;
        assert(0x80_0000 * unit <= (high - 1) * unit) by (nonlinear_arith)
            requires
                0x80_0000 <= high - 1,
                unit > 0,
        ;
        lemma_bit_length_between(whole, 24 + gap);
        lemma_fundamental_div_mod_converse(
            whole as int,
            unit as int,
            high - 1,
            unit - low,
        );
    } else {
        let whole = (high * unit - low) as nat;
        let half = pow2((gap - 1) as nat);
        lemma_pow2_unfold(gap);
        lemma_pow2_increases(25, (gap - 1) as nat);
        assert(whole == 0xFF_FFFF * half + (half - low)) by (nonlinear_arith)
            requires
                whole == high * unit - low,
                high == 0x80_0000,
                unit == 2 * half,
        ;
        assert(0x40_0000 * unit <= whole) by (nonlinear_arith)
            requires
                whole == 0x80_0000 * unit - low,
                low < unit,
                unit > 0,
        ;
        lemma_bit_length_between(whole, 23 + gap);
        lemma_fundamental_div_mod_converse(
            whole as int,
            half as int,
            0xFF_FFFF,
            half - low,
        );
    }
}

/// A whole number lies below the power of two of its length, and not below
/// the one before.
pub proof fn lemma_bit_length_bounds(whole: nat)
    ensures
        whole < pow2(bit_length(whole)),
        whole > 0 ==> pow2((bit_length(whole) - 1) as nat) <= whole,
    decreases whole,
{
    lemma2_to64();
    if whole > 0 {
        lemma_bit_length_bounds(whole / 2);
        lemma_pow2_unfold(bit_length(whole));
        if whole / 2 > 0 {
            lemma_pow2_unfold((bit_length(whole) - 1) as nat);
        }
    }
}

/// A whole number between two neighbouring powers of two has the length of
/// the larger.
pub proof fn lemma_bit_length_between(whole: nat, length: nat)
    requires
        length >= 1,
        pow2((length - 1) as nat) <= whole < pow2(length),
    ensures
        bit_length(whole) == length,
{
    lemma_bit_length_bounds(whole);
    if bit_length(whole) < length {
        lemma_pow2_increases(bit_length(whole), (length - 1) as nat);
    }
    if bit_length(whole) > length {
        lemma_pow2_increases(length, (bit_length(whole) - 1) as nat);
    }
}

/// The length of a whole number of sixty-four bits is what its leading zeros
/// leave.
pub proof fn lemma_bit_length_of_u64(whole: u64)
    ensures
        bit_length(whole as nat) == 64 - u64_leading_zeros(whole),
    decreases whole,
{
    reveal(u64_leading_zeros);
    if whole > 0 {
        lemma_bit_length_of_u64(whole / 2);
    }
}

/// A power of two is no larger than a later one.
pub proof fn lemma_pow2_increases(lower: nat, upper: nat)
    requires
        lower <= upper,
    ensures
        pow2(lower) <= pow2(upper),
{
    if lower < upper {
        lemma_pow2_strictly_increases(lower, upper);
    }
}

} // verus!
