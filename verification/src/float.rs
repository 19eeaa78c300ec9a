//! Binary64 floating-point numbers, held by their bit pattern.
//!
//! Ordering, equality and negation are decided on the bit pattern itself.
//! Rounded arithmetic and conversions are carried out by `rustc_apfloat`;
//! the contracts here give each of those results a name and claim nothing
//! about its value. Of reading a decimal literal they claim that it
//! succeeds.

use rustc_apfloat::ieee::Double;
use rustc_apfloat::Float as SoftFloat;
use vstd::prelude::*;

verus! {

/// The bit that carries the sign.
pub const SIGN_BIT: u64 = 0x8000_0000_0000_0000;

/// The bit pattern of positive infinity: every larger magnitude is a NaN.
pub const INFINITY_BITS: u64 = 0x7ff0_0000_0000_0000;

/// The number that `Double::add` returns for two numbers given by their bits.
pub uninterp spec fn float_sum(a: u64, b: u64) -> u64;

/// The number that `Double::sub` returns for two numbers given by their bits.
pub uninterp spec fn float_difference(a: u64, b: u64) -> u64;

/// The number that `Double::mul` returns for two numbers given by their bits.
pub uninterp spec fn float_product(a: u64, b: u64) -> u64;

/// The number that `Double::div` returns for two numbers given by their bits.
pub uninterp spec fn float_quotient(a: u64, b: u64) -> u64;

/// The number that `Double::rem` returns for two numbers given by their bits.
pub uninterp spec fn float_remainder(a: u64, b: u64) -> u64;

/// The number that `Double::from_i128` returns for an integer.
pub uninterp spec fn float_of_int(value: i64) -> u64;

/// The number that `Double::from_str` reads from a decimal literal, by its
/// bits.
pub uninterp spec fn float_of_text(text: Seq<char>) -> u64;

/// A decimal digit.
pub open spec fn is_digit(c: char) -> bool {
    '0' <= c && c <= '9'
}

/// Every character of `text` is a decimal digit.
pub open spec fn all_digits(text: Seq<char>) -> bool {
    forall|i: int| 0 <= i < text.len() ==> is_digit(#[trigger] text[i])
}

/// `text` is one or more digits, or digits, a dot and digits.
pub open spec fn is_decimal_literal(text: Seq<char>) -> bool {
    ||| text.len() > 0 && all_digits(text)
    ||| exists|dot: int|
        0 < dot < text.len() - 1 && #[trigger] text[dot] == '.' && all_digits(text.subrange(0, dot))
            && all_digits(text.subrange(dot + 1, text.len() as int))
}

/// Calls `Double::add` (round to nearest, ties to even) on the two numbers
/// with the given bits; the result's bits are `float_sum` of them.
#[verifier::external_body]
pub(crate) fn sum_of_bits(a: u64, b: u64) -> (r: u64)
    ensures
        r == float_sum(a, b),
{
    (Double::from_bits(a as u128) + Double::from_bits(b as u128)).value.to_bits() as u64
}

/// Calls `Double::sub` (round to nearest, ties to even) on the two numbers
/// with the given bits; the result's bits are `float_difference` of them.
#[verifier::external_body]
pub(crate) fn difference_of_bits(a: u64, b: u64) -> (r: u64)
    ensures
        r == float_difference(a, b),
{
    (Double::from_bits(a as u128) - Double::from_bits(b as u128)).value.to_bits() as u64
}

/// Calls `Double::mul` (round to nearest, ties to even) on the two numbers
/// with the given bits; the result's bits are `float_product` of them.
#[verifier::external_body]
pub(crate) fn product_of_bits(a: u64, b: u64) -> (r: u64)
    ensures
        r == float_product(a, b),
{
    (Double::from_bits(a as u128) * Double::from_bits(b as u128)).value.to_bits() as u64
}

/// Calls `Double::div` (round to nearest, ties to even) on the two numbers
/// with the given bits; the result's bits are `float_quotient` of them.
#[verifier::external_body]
pub(crate) fn quotient_of_bits(a: u64, b: u64) -> (r: u64)
    ensures
        r == float_quotient(a, b),
{
    (Double::from_bits(a as u128) / Double::from_bits(b as u128)).value.to_bits() as u64
}

/// Calls `Double::rem`, the remainder of a truncated division, on the two
/// numbers with the given bits; the result's bits are `float_remainder` of
/// them.
#[verifier::external_body]
pub(crate) fn remainder_of_bits(a: u64, b: u64) -> (r: u64)
    ensures
        r == float_remainder(a, b),
{
    (Double::from_bits(a as u128) % Double::from_bits(b as u128)).value.to_bits() as u64
}

/// Calls `Double::from_i128`, which rounds an integer to the nearest number
/// (ties to even); the result's bits are `float_of_int` of the integer.
#[verifier::external_body]
pub(crate) fn bits_of_int(value: i64) -> (r: u64)
    ensures
        r == float_of_int(value),
{
    Double::from_i128(value as i128).value.to_bits() as u64
}

/// Calls `Double::from_str` on a decimal literal. It rejects a text that is
/// empty, has no digit, has a second dot or holds a character that is
/// neither a digit nor a dot, an exponent mark, a sign or part of a special
/// name; a decimal literal is none of these, so it is read: the result holds
/// the bits of the number, which `float_of_text` names.
#[verifier::external_body]
pub(crate) fn bits_of_text(text: &str) -> (r: Option<u64>)
    requires
        is_decimal_literal(text@),
    ensures
        r == Some(float_of_text(text@)),
{
    match text.parse::<Double>() {
        Ok(number) => Some(number.to_bits() as u64),
        Err(_) => None,
    }
}

/// The bits without the sign: the magnitude of the number.
pub open spec fn magnitude(bits: u64) -> u64 {
    if bits >= SIGN_BIT {
        (bits - SIGN_BIT) as u64
    } else {
        bits
    }
}

/// The bits are those of a NaN: the magnitude lies above infinity.
pub open spec fn is_nan(bits: u64) -> bool {
    magnitude(bits) > INFINITY_BITS
}

/// Where a number that is no NaN stands on the number line: numbers are in
/// the order of these ranks, and both zeros share rank zero.
pub open spec fn rank(bits: u64) -> int {
    if bits >= SIGN_BIT {
        -(magnitude(bits) as int)
    } else {
        magnitude(bits) as int
    }
}

/// `a < b` as numbers: false as soon as either is a NaN.
pub open spec fn float_less(a: u64, b: u64) -> bool {
    !is_nan(a) && !is_nan(b) && rank(a) < rank(b)
}

/// `a == b` as numbers: a NaN equals nothing, and the two zeros are equal.
pub open spec fn float_equal(a: u64, b: u64) -> bool {
    !is_nan(a) && !is_nan(b) && rank(a) == rank(b)
}

/// The bits with the sign flipped.
pub open spec fn float_negated(bits: u64) -> u64 {
    if bits >= SIGN_BIT {
        (bits - SIGN_BIT) as u64
    } else {
        (bits + SIGN_BIT) as u64
    }
}

/// A binary64 number, identified by its bit pattern.
#[derive(Clone, Copy, Debug, PartialEq, Eq)]
pub struct Float {
    pub bits: u64,
}

impl Float {
    /// The number with the given bit pattern.
    pub fn from_bits(bits: u64) -> (r: Float)
        ensures
            r.bits == bits,
    {
        Float { bits }
    }

    /// The bit pattern of this number.
    pub fn to_bits(self) -> (r: u64)
        ensures
            r == self.bits,
    {
        self.bits
    }

    /// The integer, rounded to the nearest number.
    pub fn from_int(value: i64) -> (r: Float)
        ensures
            r.bits == float_of_int(value),
    {
        Float { bits: bits_of_int(value) }
    }

    /// Whether this is a NaN.
    pub fn is_nan(self) -> (r: bool)
        ensures
            r == is_nan(self.bits),
    {
        let magnitude: u64 = if self.bits >= SIGN_BIT {
            self.bits - SIGN_BIT
        } else {
            self.bits
        };
        magnitude > INFINITY_BITS
    }

    /// The number with the opposite sign.
    pub fn negated(self) -> (r: Float)
        ensures
            r.bits == float_negated(self.bits),
    {
        if self.bits >= SIGN_BIT {
            Float { bits: self.bits - SIGN_BIT }
        } else {
            Float { bits: self.bits + SIGN_BIT }
        }
    }

    /// `self < other` as numbers.
    pub fn less_than(self, other: Float) -> (r: bool)
        ensures
            r == float_less(self.bits, other.bits),
    {
        if self.is_nan() || other.is_nan() {
            return false;
        }
        let a_negative = self.bits >= SIGN_BIT;
        let b_negative = other.bits >= SIGN_BIT;
        let a: u64 = if a_negative { self.bits - SIGN_BIT } else { self.bits };
        let b: u64 = if b_negative { other.bits - SIGN_BIT } else { other.bits };
        if a_negative {
            if b_negative {
                a > b
            } else {
                a > 0 || b > 0
            }
        } else {
            if b_negative {
                false
            } else {
                a < b
            }
        }
    }

    /// `self == other` as numbers.
    pub fn equal_to(self, other: Float) -> (r: bool)
        ensures
            r == float_equal(self.bits, other.bits),
    {
        if self.is_nan() || other.is_nan() {
            return false;
        }
        let a: u64 = if self.bits >= SIGN_BIT { self.bits - SIGN_BIT } else { self.bits };
        let b: u64 = if other.bits >= SIGN_BIT { other.bits - SIGN_BIT } else { other.bits };
        if a == 0 && b == 0 {
            true
        } else {
            self.bits == other.bits
        }
    }
}

} // verus!
