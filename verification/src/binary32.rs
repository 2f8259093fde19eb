//! Single-precision numbers as IEEE 754 bit patterns.
//!
//! A pattern has a sign bit, eight exponent bits and twenty-three fraction
//! bits. The functions here read these fields with integer arithmetic and
//! say what a pattern means: which number it is, whether two patterns are the
//! same number, and which of two patterns comes first when numbers are put in
//! order.

use vstd::arithmetic::power2::lemma2_to64;
use vstd::arithmetic::power2::lemma_pow2_pos;
use vstd::arithmetic::power2::lemma_pow2_strictly_increases;
use vstd::arithmetic::power2::lemma_pow2_unfold;
use vstd::arithmetic::power2::pow2;
use vstd::prelude::*;

verus! {

/// The pattern of `0.0`, which is also the sample that stands for silence.
pub const ZERO: u32 = 0;

/// The pattern of `0.5`.
pub const ONE_HALF: u32 = 0x3F00_0000;

/// The pattern of `1.0`.
pub const ONE: u32 = 0x3F80_0000;

/// The pattern of `100.0`.
pub const HUNDRED: u32 = 0x42C8_0000;

/// The pattern of positive infinity; every larger magnitude is not a number.
pub const INFINITY: u32 = 0x7F80_0000;

/// The sign bit alone, which is the pattern of `-0.0`.
pub const SIGN: u32 = 0x8000_0000;

/// Whether the sign bit is set.
pub open spec fn is_negative(bits: u32) -> bool {
    bits >= SIGN
}

/// The pattern without its sign bit.
pub open spec fn magnitude(bits: u32) -> nat {
    (bits % SIGN) as nat
}

/// The eight exponent bits, as stored.
pub open spec fn exponent(bits: u32) -> nat {
    magnitude(bits) / 0x80_0000
}

/// The twenty-three fraction bits.
pub open spec fn fraction(bits: u32) -> nat {
    magnitude(bits) % 0x80_0000
}

/// Whether the pattern is not a number.
pub open spec fn is_nan(bits: u32) -> bool {
    magnitude(bits) > INFINITY
}

/// Whether the pattern is positive or negative infinity.
pub open spec fn is_infinite(bits: u32) -> bool {
    magnitude(bits) == INFINITY
}

/// Whether the pattern is a number that is not infinite.
pub open spec fn is_finite(bits: u32) -> bool {
    magnitude(bits) < INFINITY
}

/// Whether the pattern is `0.0` or `-0.0`.
pub open spec fn is_zero(bits: u32) -> bool {
    magnitude(bits) == 0
}

/// Whether the pattern is a number from `0.0` to `1.0`, both included.
pub open spec fn in_unit_range(bits: u32) -> bool {
    bits <= ONE || bits == SIGN
}

/// Whether two patterns denote the same number. Nothing equals a pattern that
/// is not a number, and the two zeros equal each other.
pub open spec fn same_number(a: u32, b: u32) -> bool {
    !is_nan(a) && !is_nan(b) && (a == b || (is_zero(a) && is_zero(b)))
}

/// Decides `same_number`.
pub fn is_same_number(a: u32, b: u32) -> (same: bool)
    ensures
        same == same_number(a, b),
{
    let magnitude_a: u32 = a % SIGN;
    let magnitude_b: u32 = b % SIGN;
    magnitude_a <= INFINITY && magnitude_b <= INFINITY && (a == b || (magnitude_a == 0
        && magnitude_b == 0))
}

/// The whole number that scales the value of a pattern: the fraction bits,
/// with the leading one that a nonzero exponent implies.
pub open spec fn significand(bits: u32) -> nat {
    if exponent(bits) == 0 {
        fraction(bits)
    } else {
        0x80_0000 + fraction(bits)
    }
}

/// The power of two by which the significand is scaled: the magnitude of a
/// finite pattern is `significand * 2^scale`.
pub open spec fn scale(bits: u32) -> int {
    if exponent(bits) == 0 {
        -149
    } else {
        exponent(bits) - 150
    }
}

/// Computes `significand`.
pub fn significand_of(bits: u32) -> (digits: u64)
    ensures
        digits == significand(bits),
        digits < 0x100_0000,
{
    let magnitude_bits: u32 = bits % SIGN;
    if magnitude_bits / 0x80_0000 == 0 {
        (magnitude_bits % 0x80_0000) as u64
    } else {
        (magnitude_bits % 0x80_0000) as u64 + 0x80_0000
    }
}

/// Computes `scale`.
pub fn scale_of(bits: u32) -> (power: i32)
    ensures
        power == scale(bits),
        -149 <= power <= 105,
{
    let magnitude_bits: u32 = bits % SIGN;
    if magnitude_bits / 0x80_0000 == 0 {
        -149
    } else {
        (magnitude_bits / 0x80_0000) as i32 - 150
    }
}

/// The value of a finite pattern, as a count of units of `2^-149`, the
/// smallest magnitude a pattern has.
pub open spec fn value(bits: u32) -> int {
    let count = significand(bits) * pow2((scale(bits) + 149) as nat);
    if is_negative(bits) {
        -count
    } else {
        count as int
    }
}

/// The rank of a pattern in the total order of single-precision values:
/// negative patterns come first, with the largest magnitude lowest, then the
/// positive patterns by growing magnitude.
pub open spec fn order_key(bits: u32) -> u32 {
    if bits >= SIGN {
        (u32::MAX - bits) as u32
    } else {
        (bits + SIGN) as u32
    }
}

/// The pattern that has the given rank.
pub open spec fn pattern_of_key(key: u32) -> u32 {
    if key >= SIGN {
        (key - SIGN) as u32
    } else {
        (u32::MAX - key) as u32
    }
}

/// Whether `a` comes before `b` in the total order.
pub open spec fn precedes(a: u32, b: u32) -> bool {
    order_key(a) < order_key(b)
}

/// Computes `order_key`.
pub fn to_order_key(bits: u32) -> (key: u32)
    ensures
        key == order_key(bits),
        pattern_of_key(key) == bits,
{
    if bits >= SIGN {
        u32::MAX - bits
    } else {
        bits + SIGN
    }
}

/// Computes `pattern_of_key`.
pub fn from_order_key(key: u32) -> (bits: u32)
    ensures
        bits == pattern_of_key(key),
        order_key(bits) == key,
{
    if key >= SIGN {
        key - SIGN
    } else {
        u32::MAX - key
    }
}

/// Among numbers, the total order agrees with the order of magnitudes: of two
/// positive patterns the one with the smaller magnitude comes first, of two
/// negative patterns the one with the larger magnitude, and every negative
/// pattern comes before every positive one.
pub proof fn lemma_order_by_sign_and_magnitude(a: u32, b: u32)
    ensures
        !is_negative(a) && !is_negative(b) ==> (precedes(a, b) <==> magnitude(a) < magnitude(b)),
        is_negative(a) && is_negative(b) ==> (precedes(a, b) <==> magnitude(a) > magnitude(b)),
        is_negative(a) && !is_negative(b) ==> precedes(a, b),
        !is_negative(a) && is_negative(b) ==> !precedes(a, b),
{
}

/// Of two finite patterns, the one with the smaller magnitude bits has the
/// smaller magnitude.
pub proof fn lemma_magnitudes_are_ordered(a: u32, b: u32)
    requires
        is_finite(a),
        is_finite(b),
        magnitude(a) < magnitude(b),
    ensures
        significand(a) * pow2((scale(a) + 149) as nat) < significand(b) * pow2(
            (scale(b) + 149) as nat,
        ),
{
    lemma2_to64();
    let unit_a = pow2((scale(a) + 149) as nat);
    let unit_b = pow2((scale(b) + 149) as nat);
    lemma_pow2_pos((scale(a) + 149) as nat);
    lemma_pow2_pos((scale(b) + 149) as nat);
    if exponent(a) == exponent(b) {
        assert(significand(a) * unit_a < significand(b) * unit_b) by (nonlinear_arith)
            requires
                significand(a) < significand(b),
                unit_a == unit_b,
                unit_a > 0,
        ;
    } else if exponent(a) == 0 {
        assert(significand(a) * unit_a < significand(b) * unit_b) by (nonlinear_arith)
            requires
                significand(a) < 0x80_0000,
                unit_a == 1,
                significand(b) >= 0x80_0000,
                unit_b >= 1,
        ;
    } else {
        lemma_pow2_unfold((scale(a) + 150) as nat);
        if scale(a) + 150 < scale(b) + 149 {
            lemma_pow2_strictly_increases((scale(a) + 150) as nat, (scale(b) + 149) as nat);
        }
        assert(significand(a) * unit_a < significand(b) * unit_b) by (nonlinear_arith)
            requires
                significand(a) < 0x100_0000,
                significand(b) >= 0x80_0000,
                2 * unit_a <= unit_b,
                unit_a > 0,
        ;
    }
}

/// Two finite patterns are the same number exactly when they have the same
/// value.
pub proof fn lemma_same_number_is_same_value(a: u32, b: u32)
    requires
        is_finite(a),
        is_finite(b),
    ensures
        same_number(a, b) <==> value(a) == value(b),
{
    let unit_a = pow2((scale(a) + 149) as nat);
    let unit_b = pow2((scale(b) + 149) as nat);
    lemma_pow2_pos((scale(a) + 149) as nat);
    lemma_pow2_pos((scale(b) + 149) as nat);
    assert(significand(a) == 0 <==> significand(a) * unit_a == 0) by (nonlinear_arith)
        requires
            unit_a > 0,
    ;
    assert(significand(b) == 0 <==> significand(b) * unit_b == 0) by (nonlinear_arith)
        requires
            unit_b > 0,
    ;
    if magnitude(a) < magnitude(b) {
        lemma_magnitudes_are_ordered(a, b);
    }
    if magnitude(b) < magnitude(a) {
        lemma_magnitudes_are_ordered(b, a);
    }
}

/// The total order does not go against the values: of two finite patterns,
/// the one with the smaller value comes first.
pub proof fn lemma_order_follows_value(a: u32, b: u32)
    requires
        is_finite(a),
        is_finite(b),
        value(a) < value(b),
    ensures
        precedes(a, b),
{
    if magnitude(a) < magnitude(b) {
        lemma_magnitudes_are_ordered(a, b);
    }
    if magnitude(b) < magnitude(a) {
        lemma_magnitudes_are_ordered(b, a);
    }
}

} // verus!
