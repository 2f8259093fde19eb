//! Numbers as the text the host shows.

use vstd::arithmetic::div_mod::lemma_basic_div;
use vstd::arithmetic::div_mod::lemma_mod_decreases;
use vstd::arithmetic::div_mod::lemma_small_mod;
use vstd::arithmetic::power2::lemma2_to64;
use vstd::arithmetic::power2::lemma_pow2_adds;
use vstd::arithmetic::power2::lemma_pow2_strictly_increases;
use vstd::arithmetic::power2::lemma_pow2_unfold;
use vstd::arithmetic::power2::pow2;
use vstd::bits::lemma_u64_pow2_no_overflow;
use vstd::bits::lemma_u64_shl_is_mul;
use vstd::prelude::*;
use crate::binary32::is_infinite;
use crate::binary32::is_nan;
use crate::binary32::is_negative;
use crate::binary32::scale;
use crate::binary32::scale_of;
use crate::binary32::significand;
use crate::binary32::significand_of;
use crate::binary32::INFINITY;
use crate::binary32::SIGN;
use crate::rounding::nearest_even;

verus! {

/// The character of a decimal digit.
pub open spec fn digit(value: nat) -> char {
    if value == 0 {
        '0'
    } else if value == 1 {
        '1'
    } else if value == 2 {
        '2'
    } else if value == 3 {
        '3'
    } else if value == 4 {
        '4'
    } else if value == 5 {
        '5'
    } else if value == 6 {
        '6'
    } else if value == 7 {
        '7'
    } else if value == 8 {
        '8'
    } else {
        '9'
    }
}

/// The decimal digits of a whole number, without leading zeros.
pub open spec fn decimal(value: nat) -> Seq<char>
    decreases value,
{
    if value < 10 {
        seq![digit(value)]
    } else {
        decimal(value / 10).push(digit(value % 10))
    }
}

/// A count of hundredths as a number with two decimals.
pub open spec fn fixed2(hundredths: nat) -> Seq<char> {
    decimal(hundredths / 100) + seq!['.', digit(hundredths / 10 % 10), digit(hundredths % 10)]
}

/// Appends one decimal digit.
pub fn push_digit(text: &mut String, value: u8)
    requires
        value < 10,
    ensures
        final(text)@ == old(text)@.push(digit(value as nat)),
{
    proof {
        reveal_strlit("0");
        reveal_strlit("1");
        reveal_strlit("2");
        reveal_strlit("3");
        reveal_strlit("4");
        reveal_strlit("5");
        reveal_strlit("6");
        reveal_strlit("7");
        reveal_strlit("8");
        reveal_strlit("9");
    }
    if value == 0 {
        text.append("0");
    } else if value == 1 {
        text.append("1");
    } else if value == 2 {
        text.append("2");
    } else if value == 3 {
        text.append("3");
    } else if value == 4 {
        text.append("4");
    } else if value == 5 {
        text.append("5");
    } else if value == 6 {
        text.append("6");
    } else if value == 7 {
        text.append("7");
    } else if value == 8 {
        text.append("8");
    } else {
        text.append("9");
    }
}

/// Appends the decimal digits of a whole number.
pub fn push_decimal(text: &mut String, value: u128)
    ensures
        final(text)@ == old(text)@ + decimal(value as nat),
    decreases value,
{
    if value >= 10 {
        push_decimal(text, value / 10);
    }
    push_digit(text, (value % 10) as u8);
}

/// Appends a count of hundredths as a number with two decimals.
pub fn push_fixed2(text: &mut String, hundredths: u128)
    ensures
        final(text)@ == old(text)@ + fixed2(hundredths as nat),
{
    push_decimal(text, hundredths / 100);
    proof {
        reveal_strlit(".");
    }
    text.append(".");
    push_digit(text, (hundredths / 10 % 10) as u8);
    push_digit(text, (hundredths % 10) as u8);
}

/// The decimal digits of a whole number, as a string of its own.
pub fn decimal_text(value: u128) -> (text: String)
    ensures
        text@ == decimal(value as nat),
{
    let mut text = String::new();
    push_decimal(&mut text, value);
    text
}

/// The count of hundredths nearest to the magnitude of a finite pattern; a
/// magnitude halfway between two counts goes to the even one.
pub open spec fn hundredths(bits: u32) -> nat {
    let whole = 100 * significand(bits);
    if scale(bits) >= 0 {
        whole * pow2(scale(bits) as nat)
    } else {
        nearest_even(whole, pow2((-scale(bits)) as nat))
    }
}

/// The minus sign of a negative pattern, and nothing for a positive one.
pub open spec fn sign_text(bits: u32) -> Seq<char> {
    if is_negative(bits) {
        seq!['-']
    } else {
        Seq::<char>::empty()
    }
}

/// A pattern as text with two decimals: `NaN` for what is not a number, `inf`
/// for an infinite magnitude, the nearest count of hundredths otherwise, and
/// a minus sign before every negative number.
pub open spec fn fixed2_text(bits: u32) -> Seq<char> {
    if is_nan(bits) {
        seq!['N', 'a', 'N']
    } else if is_infinite(bits) {
        sign_text(bits) + seq!['i', 'n', 'f']
    } else {
        sign_text(bits) + fixed2(hundredths(bits))
    }
}

/// Appends the magnitude of a finite pattern with two decimals.
fn push_magnitude(text: &mut String, magnitude_bits: u32)
    requires
        magnitude_bits < INFINITY,
    ensures
        final(text)@ == old(text)@ + fixed2(hundredths(magnitude_bits)),
{
    let digits: u64 = significand_of(magnitude_bits);
    let power: i32 = scale_of(magnitude_bits);
    if power >= 0 {
        let shift: u32 = power as u32;
        let mut whole: u128 = digits as u128;
        let mut done: u32 = 0;
        proof {
            lemma2_to64();
        }
        while done < shift
            invariant
                done <= shift <= 104,
                digits < 0x100_0000,
                whole == digits * pow2(done as nat),
                whole < 0x100_0000 * pow2(done as nat),
            decreases shift - done,
        {
            proof {
                lemma_pow2_unfold((done + 1) as nat);
                if done < 103 {
                    lemma_pow2_strictly_increases((done + 1) as nat, 104);
                }
                lemma_pow2_104();
                assert(digits * (2 * pow2(done as nat)) == 2 * (digits * pow2(done as nat)))
                    by (nonlinear_arith);
            }
            whole = whole * 2;
            done = done + 1;
        }
        push_decimal(text, whole);
        proof {
            reveal_strlit(".00");
            assert(100 * digits * pow2(shift as nat) == 100 * whole) by (nonlinear_arith)
                requires
                    whole == digits * pow2(shift as nat),
            ;
        }
        text.append(".00");
    } else {
        let shift: u32 = (-power) as u32;
        let whole: u64 = 100 * digits;
        if shift >= 64 {
            proof {
                lemma2_to64();
                if shift > 64 {
                    lemma_pow2_strictly_increases(64, shift as nat);
                }
                lemma_basic_div(whole as int, pow2(shift as nat) as int);
                lemma_small_mod(whole as nat, pow2(shift as nat));
            }
            push_fixed2(text, 0);
        } else {
            proof {
                lemma_u64_pow2_no_overflow(shift as nat);
                lemma_u64_shl_is_mul(1, shift as u64);
            }
            let unit: u64 = 1u64 << shift;
            let below: u64 = whole / unit;
            let left: u64 = whole % unit;
            proof {
                lemma_mod_decreases(whole as nat, unit as nat);
            }
            let nearest: u64 = if 2 * left < unit || (2 * left == unit && below % 2 == 0) {
                below
            } else {
                below + 1
            };
            push_fixed2(text, nearest as u128);
        }
    }
}

/// The value of `2^104`.
proof fn lemma_pow2_104()
    ensures
        pow2(104) == 0x100_0000_0000_0000_0000_0000_0000,
{
    lemma2_to64();
    lemma_pow2_adds(64, 40);
    lemma_pow2_adds(32, 8);
}

/// Writes a pattern as text with two decimals.
pub fn format_fixed2(bits: u32) -> (text: String)
    ensures
        text@ == fixed2_text(bits),
{
    let magnitude_bits: u32 = bits % SIGN;
    if magnitude_bits > INFINITY {
        proof {
            reveal_strlit("NaN");
        }
        let text = String::from_str("NaN");
        return text;
    }
    let mut text = String::new();
    if bits >= SIGN {
        proof {
            reveal_strlit("-");
        }
        text.append("-");
    }
    if magnitude_bits == INFINITY {
        proof {
            reveal_strlit("inf");
        }
        text.append("inf");
    } else {
        push_magnitude(&mut text, magnitude_bits);
    }
    text
}

} // verus!
