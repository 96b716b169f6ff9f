//! Binary32 scalars as bit patterns: classification, the value a pattern
//! stands for, and what correctly rounded arithmetic returns.

use vstd::prelude::*;
use vstd::arithmetic::power2::pow2;

verus! {

/// The sign bit of a pattern.
pub const SIGN_BIT: u32 = 0x8000_0000;

/// The magnitude pattern of infinity; every larger magnitude pattern is a NaN.
pub const INFINITY: u32 = 0x7f80_0000;

/// The bit that marks a NaN as quiet.
pub const QUIET_BIT: u32 = 0x0040_0000;

/// The NaN that an invalid operation returns.
pub const DEFAULT_NAN: u32 = 0x7fc0_0000;

/// The pattern without its sign bit.
pub open spec fn abs_bits(b: u32) -> u32 {
    b % 0x8000_0000
}

/// Whether the sign bit is set, as it can be on a zero and on a NaN too.
pub open spec fn is_negative(b: u32) -> bool {
    b >= 0x8000_0000
}

/// Whether the pattern is a NaN, quiet or signalling.
pub open spec fn is_nan(b: u32) -> bool {
    abs_bits(b) > INFINITY
}

/// Whether the pattern is one of the two infinities.
pub open spec fn is_infinite(b: u32) -> bool {
    abs_bits(b) == INFINITY
}

/// Whether the pattern stands for a number: a zero, a subnormal or a normal.
pub open spec fn is_finite(b: u32) -> bool {
    abs_bits(b) < INFINITY
}

/// Whether the pattern is one of the two zeros.
pub open spec fn is_zero(b: u32) -> bool {
    abs_bits(b) == 0
}

/// The magnitude pattern `p` with the given sign.
pub open spec fn with_sign(negative: bool, p: u32) -> u32 {
    if negative {
        (p + 0x8000_0000) as u32
    } else {
        p
    }
}

/// The pattern with its sign bit flipped.
pub open spec fn negated(b: u32) -> u32 {
    with_sign(!is_negative(b), abs_bits(b))
}

/// The pattern with its quiet bit set.
pub open spec fn quieted(b: u32) -> u32 {
    if (b / 0x0040_0000) % 2 == 1 {
        b
    } else {
        (b + 0x0040_0000) as u32
    }
}

/// The exponent of the unit in the last place of magnitude pattern `p`,
/// counted from `2^-149`.
pub open spec fn ulp_exponent(p: nat) -> nat {
    if p / 0x0080_0000 == 0 {
        0
    } else {
        (p / 0x0080_0000 - 1) as nat
    }
}

/// The significand of magnitude pattern `p`, hidden bit included.
pub open spec fn significand(p: nat) -> nat {
    if p / 0x0080_0000 == 0 {
        p % 0x0080_0000
    } else {
        0x0080_0000 + p % 0x0080_0000
    }
}

/// The number that magnitude pattern `p` stands for, in units of `2^-149`.
///
/// At `INFINITY` this is `2^277`, the first power of two beyond the finite
/// range: rounding treats infinity as the pattern after the largest finite one.
pub open spec fn magnitude(p: nat) -> nat {
    significand(p) * pow2(ulp_exponent(p))
}

/// The value of a finite pattern, in units of `2^-149`.
pub open spec fn scaled_value(b: u32) -> int {
    if is_negative(b) {
        -(magnitude(abs_bits(b) as nat) as int)
    } else {
        magnitude(abs_bits(b) as nat) as int
    }
}

/// `p` is the magnitude pattern nearest to the ratio `n / d`; of two equally
/// near patterns the even one. A ratio of at least `2^277 - 2^252` units goes to
/// `INFINITY`.
pub open spec fn nearest_even(p: nat, n: nat, d: nat) -> bool {
    &&& p <= INFINITY
    &&& p < INFINITY ==> {
        let above = d * (magnitude(p) + magnitude(p + 1));
        if p % 2 == 0 {
            2 * n <= above
        } else {
            2 * n < above
        }
    }
    &&& p > 0 ==> {
        let below = d * (magnitude((p - 1) as nat) + magnitude(p));
        if p % 2 == 0 {
            below <= 2 * n
        } else {
            below < 2 * n
        }
    }
}

/// The magnitude pattern that `n / d` rounds to.
pub open spec fn round_ratio(n: nat, d: nat) -> u32 {
    choose|p: u32| nearest_even(p as nat, n, d)
}

/// The pattern of `exact` units of `2^-149`, rounded to the nearest pattern of
/// its sign. An exact zero takes the sign that `zero_negative` gives.
pub open spec fn round_signed(exact: int, zero_negative: bool) -> u32 {
    if exact == 0 {
        with_sign(zero_negative, 0)
    } else if exact < 0 {
        with_sign(true, round_ratio((-exact) as nat, 1))
    } else {
        with_sign(false, round_ratio(exact as nat, 1))
    }
}

/// The sum of two patterns: the exact sum of the two numbers, rounded to the
/// nearest pattern, the even one of two equally near, and to infinity beyond
/// the finite range.
///
/// A NaN operand comes back quieted, the first one if both are. Infinities of
/// opposite sign give the default NaN. An exact zero is negative only when both
/// operands are.
#[verifier::opaque]
pub open spec fn sum(a: u32, b: u32) -> u32 {
    if is_nan(a) {
        quieted(a)
    } else if is_nan(b) {
        quieted(b)
    } else if is_infinite(a) {
        if is_infinite(b) && is_negative(a) != is_negative(b) {
            DEFAULT_NAN
        } else {
            a
        }
    } else if is_infinite(b) {
        b
    } else {
        round_signed(scaled_value(a) + scaled_value(b), is_negative(a) && is_negative(b))
    }
}

/// The difference of two patterns: the sum with the second operand negated,
/// a NaN too.
pub open spec fn difference(a: u32, b: u32) -> u32 {
    sum(a, negated(b))
}

/// The product of two patterns: the exact product of the two numbers, rounded
/// to the nearest pattern, the even one of two equally near, and to infinity
/// beyond the finite range.
///
/// A NaN operand comes back quieted, the first one if both are. Zero times
/// infinity gives the default NaN. The sign is the exclusive or of the signs,
/// on a zero as well.
#[verifier::opaque]
pub open spec fn product(a: u32, b: u32) -> u32 {
    let negative = is_negative(a) != is_negative(b);
    if is_nan(a) {
        quieted(a)
    } else if is_nan(b) {
        quieted(b)
    } else if is_infinite(a) || is_infinite(b) {
        if is_zero(a) || is_zero(b) {
            DEFAULT_NAN
        } else {
            with_sign(negative, INFINITY)
        }
    } else {
        with_sign(
            negative,
            round_ratio(magnitude(abs_bits(a) as nat) * magnitude(abs_bits(b) as nat), pow2(149)),
        )
    }
}

/// Whether the pattern stands for a number greater than zero. No NaN does.
pub open spec fn is_positive(b: u32) -> bool {
    0 < b <= INFINITY
}

/// A binary32 scalar, equal to another exactly when the patterns are equal:
/// a NaN equals itself, and the two zeros differ.
#[derive(Clone, Copy, Debug, PartialEq, Eq, Structural)]
pub struct Scalar {
    pub bits: u32,
}

/// The scalar that a pattern stands for. Every pattern stands for one, and
/// nothing is normalised on the way.
pub open spec fn decode(bits: u32) -> Scalar {
    Scalar { bits }
}

/// The pattern of a scalar.
pub open spec fn encode(value: Scalar) -> u32 {
    value.bits
}

/// Every pattern comes back from a scalar as it went in, the NaNs with their
/// payloads, the zeros with their signs, the subnormals unflushed.
pub proof fn lemma_encode_of_decode(bits: u32)
    ensures
        encode(decode(bits)) == bits,
{
}

/// A scalar is the one that its pattern stands for.
pub proof fn lemma_decode_of_encode(value: Scalar)
    ensures
        decode(encode(value)) == value,
{
}

} // verus!
