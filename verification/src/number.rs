//! Numbers of the language are IEEE-754 binary64 values, carried as their 64-bit patterns.
//!
//! Everything here is decided on the bit pattern alone: classification, equality, ordering,
//! negation and truncation to an index. Arithmetic and formatting are left to the host.

use vstd::prelude::*;
use vstd::arithmetic::power2::{pow2, lemma2_to64, lemma_pow2_strictly_increases};
use vstd::bits::{lemma_u64_shl_is_mul, lemma_u64_shr_is_div};

verus! {

/// The bit that carries the sign.
pub const SIGN_BIT: u64 = 0x8000_0000_0000_0000;

/// The largest magnitude that is not a NaN: the pattern of positive infinity.
pub const INFINITY_BITS: u64 = 0x7ff0_0000_0000_0000;

/// Two to the power 52: the weight of the implicit leading bit of a normal number.
pub const HIDDEN_BIT: u64 = 0x0010_0000_0000_0000;

/// Whether the sign bit of the pattern is set.
pub open spec fn sign_of(bits: u64) -> bool {
    bits >= SIGN_BIT
}

/// The pattern without its sign bit.
pub open spec fn magnitude_of(bits: u64) -> u64 {
    if bits >= SIGN_BIT {
        (bits - SIGN_BIT) as u64
    } else {
        bits
    }
}

/// A pattern is a NaN when its magnitude lies above that of infinity.
pub open spec fn is_nan_bits(bits: u64) -> bool {
    magnitude_of(bits) > INFINITY_BITS
}

/// Positive and negative zero.
pub open spec fn is_zero_bits(bits: u64) -> bool {
    magnitude_of(bits) == 0
}

/// The position of a number on the number line, as far as ordering is concerned: the
/// magnitude, negated where the sign bit is set. Meaningful for every pattern but NaN.
pub open spec fn order_key(bits: u64) -> int {
    if sign_of(bits) {
        -(magnitude_of(bits) as int)
    } else {
        magnitude_of(bits) as int
    }
}

/// Numeric equality: no NaN equals anything, the two zeros are equal, and otherwise the
/// patterns must agree.
pub open spec fn equal_bits(left: u64, right: u64) -> bool {
    !is_nan_bits(left) && !is_nan_bits(right) && order_key(left) == order_key(right)
}

/// Numeric `<`: false whenever a NaN is involved.
pub open spec fn less_bits(left: u64, right: u64) -> bool {
    !is_nan_bits(left) && !is_nan_bits(right) && order_key(left) < order_key(right)
}

/// Numeric `<=`: false whenever a NaN is involved.
pub open spec fn less_equal_bits(left: u64, right: u64) -> bool {
    !is_nan_bits(left) && !is_nan_bits(right) && order_key(left) <= order_key(right)
}

/// The pattern with its sign bit flipped.
pub open spec fn negated_bits(bits: u64) -> u64 {
    if bits >= SIGN_BIT {
        (bits - SIGN_BIT) as u64
    } else {
        (bits + SIGN_BIT) as u64
    }
}

/// The biased exponent field of a pattern.
pub open spec fn exponent_of(bits: u64) -> int {
    magnitude_of(bits) as int / (HIDDEN_BIT as int)
}

/// The fraction field of a pattern.
pub open spec fn fraction_of(bits: u64) -> int {
    magnitude_of(bits) as int % (HIDDEN_BIT as int)
}

/// The integer part of a number, saturated to 64 bits: zero for NaN, for negative numbers
/// and for magnitudes below one; `u64::MAX` for everything from two to the power 64 upward,
/// infinity included; and otherwise the significand scaled by its exponent, rounded toward
/// zero.
pub open spec fn truncated_bits(bits: u64) -> int {
    let exponent = exponent_of(bits);
    let significand = HIDDEN_BIT as int + fraction_of(bits);
    if is_nan_bits(bits) || sign_of(bits) || exponent < 1023 {
        0
    } else if exponent >= 1087 {
        u64::MAX as int
    } else if exponent >= 1075 {
        significand * pow2((exponent - 1075) as nat)
    } else {
        significand / (pow2((1075 - exponent) as nat) as int)
    }
}

pub fn is_nan(bits: u64) -> (r: bool)
    ensures
        r == is_nan_bits(bits),
{
    magnitude(bits) > INFINITY_BITS
}

pub fn is_zero(bits: u64) -> (r: bool)
    ensures
        r == is_zero_bits(bits),
{
    magnitude(bits) == 0
}

pub fn is_negative(bits: u64) -> (r: bool)
    ensures
        r == sign_of(bits),
{
    bits >= SIGN_BIT
}

pub fn magnitude(bits: u64) -> (r: u64)
    ensures
        r == magnitude_of(bits),
{
    if bits >= SIGN_BIT {
        bits - SIGN_BIT
    } else {
        bits
    }
}

pub fn number_equal(left: u64, right: u64) -> (r: bool)
    ensures
        r == equal_bits(left, right),
{
    if is_nan(left) || is_nan(right) {
        false
    } else if is_zero(left) && is_zero(right) {
        true
    } else {
        left == right
    }
}

pub fn number_less(left: u64, right: u64) -> (r: bool)
    ensures
        r == less_bits(left, right),
{
    if is_nan(left) || is_nan(right) {
        false
    } else if is_negative(left) {
        if is_negative(right) {
            magnitude(left) > magnitude(right)
        } else {
            magnitude(left) > 0 || magnitude(right) > 0
        }
    } else {
        !is_negative(right) && left < right
    }
}

pub fn number_less_equal(left: u64, right: u64) -> (r: bool)
    ensures
        r == less_equal_bits(left, right),
{
    number_less(left, right) || number_equal(left, right)
}

pub fn negate(bits: u64) -> (r: u64)
    ensures
        r == negated_bits(bits),
{
    if bits >= SIGN_BIT {
        bits - SIGN_BIT
    } else {
        bits + SIGN_BIT
    }
}

pub fn truncate(bits: u64) -> (r: u64)
    ensures
        r as int == truncated_bits(bits),
{
    let size: u64 = magnitude(bits);
    let exponent: u64 = size / HIDDEN_BIT;
    let significand: u64 = HIDDEN_BIT + size % HIDDEN_BIT;
    if is_nan(bits) || is_negative(bits) || exponent < 1023 {
        0
    } else if exponent >= 1087 {
        u64::MAX
    } else if exponent >= 1075 {
        let shift: u64 = exponent - 1075;
        proof {
            lemma2_to64();
            if shift < 11 {
                lemma_pow2_strictly_increases(shift as nat, 11);
            }
            assert(significand * pow2(shift as nat) <= u64::MAX) by (nonlinear_arith)
                requires
                    significand < 0x0020_0000_0000_0000u64,
                    pow2(shift as nat) <= 2048,
            ;
            lemma_u64_shl_is_mul(significand, shift);
        }
        significand << shift
    } else {
        let shift: u64 = 1075 - exponent;
        proof {
            lemma_u64_shr_is_div(significand, shift);
        }
        significand >> shift
    }
}

/// The index that a number selects in a sequence of `length` items: the number rounded
/// toward zero, where that is an integer from zero up to `length`. NaN selects nothing,
/// and neither does a number that rounds to a negative integer, which is every negative
/// number of magnitude one or more. Negative zero and the negative numbers above minus
/// one round to zero.
pub open spec fn index_of_bits(bits: u64, length: nat) -> Option<nat> {
    if is_nan_bits(bits) || (sign_of(bits) && exponent_of(bits) >= 1023) {
        None
    } else if truncated_bits(bits) < length {
        Some(truncated_bits(bits) as nat)
    } else {
        None
    }
}

pub fn index_in(bits: u64, length: usize) -> (r: Option<usize>)
    ensures
        match r {
            Some(i) => i < length && index_of_bits(bits, length as nat) == Some(i as nat),
            None => index_of_bits(bits, length as nat) is None,
        },
{
    if is_nan(bits) || (is_negative(bits) && magnitude(bits) / HIDDEN_BIT >= 1023) {
        return None;
    }
    let whole: u64 = truncate(bits);
    if whole < length as u64 {
        Some(whole as usize)
    } else {
        None
    }
}

} // verus!
