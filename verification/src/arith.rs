//! Correctly rounded arithmetic on scalars, in integer code.

use vstd::prelude::*;
use vstd::arithmetic::power2::{lemma2_to64, lemma_pow2_adds, lemma_pow2_pos, pow2};
use crate::nearest::{
    lemma_nearest_even_absorbs, lemma_nearest_even_scales, lemma_pow2_increases,
    lemma_round_ratio_is,
};
use crate::rounding::{power_of_two, round_scaled};
use crate::scalar::{
    abs_bits, decode, difference, encode, is_finite, is_negative, is_positive, magnitude, negated,
    product, quieted, round_signed, scaled_value, significand, sum, ulp_exponent, with_sign,
    Scalar, DEFAULT_NAN, INFINITY,
};

verus! {

/// The pattern without its sign bit.
fn magnitude_bits(b: u32) -> (p: u32)
    ensures
        p == abs_bits(b),
{
    b % 0x8000_0000
}

/// Whether the sign bit is set.
fn sign_of(b: u32) -> (negative: bool)
    ensures
        negative == is_negative(b),
{
    b >= 0x8000_0000
}

/// The magnitude pattern with the given sign.
fn signed(negative: bool, p: u32) -> (b: u32)
    requires
        p < 0x8000_0000,
    ensures
        b == with_sign(negative, p),
{
    if negative {
        p + 0x8000_0000
    } else {
        p
    }
}

/// The pattern with its quiet bit set.
fn quiet(b: u32) -> (r: u32)
    ensures
        r == quieted(b),
{
    if (b / 0x0040_0000) % 2 == 1 {
        b
    } else {
        b + 0x0040_0000
    }
}

/// Significand and exponent offset of a finite magnitude pattern.
fn unpack(p: u32) -> (parts: (u64, u32))
    requires
        p < INFINITY,
    ensures
        parts.0 == significand(p as nat),
        parts.1 == ulp_exponent(p as nat),
        parts.0 < 0x0100_0000,
        parts.1 <= 253,
        parts.1 > 0 ==> parts.0 >= 0x0080_0000,
{
    let field: u32 = p / 0x0080_0000;
    let fraction: u32 = p % 0x0080_0000;
    if field == 0 {
        (fraction as u64, 0)
    } else {
        (0x0080_0000 + fraction as u64, field - 1)
    }
}

/// The rounded sum of two finite patterns, the first with the larger exponent.
fn plus_ordered(hi: u32, lo: u32) -> (r: u32)
    requires
        is_finite(hi),
        is_finite(lo),
        ulp_exponent(abs_bits(hi) as nat) >= ulp_exponent(abs_bits(lo) as nat),
    ensures
        r == round_signed(
            scaled_value(hi) + scaled_value(lo),
            is_negative(hi) && is_negative(lo),
        ),
{
    let p_hi: u32 = magnitude_bits(hi);
    let p_lo: u32 = magnitude_bits(lo);
    let neg_hi: bool = sign_of(hi);
    let neg_lo: bool = sign_of(lo);
    let (m_hi, g_hi) = unpack(p_hi);
    let (m_lo, g_lo) = unpack(p_lo);
    let shift: u32 = g_hi - g_lo;
    let ghost unit: nat = pow2(g_lo as nat);
    proof {
        lemma_pow2_pos(g_lo as nat);
        lemma_pow2_adds(shift as nat, g_lo as nat);
    }
    if shift >= 26 {
        // The smaller operand is under a quarter of a unit in the last place
        // of the larger, which is normal: the sum rounds back to the larger.
        proof {
            let x: nat = if neg_hi == neg_lo {
                magnitude(p_hi as nat) + magnitude(p_lo as nat)
            } else {
                (magnitude(p_hi as nat) - magnitude(p_lo as nat)) as nat
            };
            lemma2_to64();
            lemma_pow2_adds(24, g_lo as nat);
            lemma_pow2_adds(2, (24 + g_lo) as nat);
            lemma_pow2_increases((26 + g_lo) as nat, g_hi as nat);
            assert(m_lo * unit < 0x0100_0000 * unit) by (nonlinear_arith)
                requires
                    m_lo < 0x0100_0000,
                    unit > 0,
            ;
            assert(m_hi * pow2(g_hi as nat) >= 0x0080_0000 * pow2(g_hi as nat))
                by (nonlinear_arith)
                requires
                    m_hi >= 0x0080_0000,
            ;
            lemma_nearest_even_absorbs(p_hi as nat, x);
            lemma_round_ratio_is(p_hi, x, 1);
        }
        return signed(neg_hi, p_hi);
    }
    // Both significands at the exponent of the smaller operand: the sum is
    // exact in 50 bits.
    let w: u64 = power_of_two(shift);
    proof {
        lemma2_to64();
        assert(m_hi * w < 0x0100_0000 * 0x0200_0000) by (nonlinear_arith)
            requires
                m_hi < 0x0100_0000,
                w <= 0x0200_0000,
        ;
        assert((m_hi * w) * unit == m_hi * pow2(g_hi as nat)) by (nonlinear_arith)
            requires
                w * unit == pow2(g_hi as nat),
        ;
    }
    let wide: u64 = m_hi * w;
    let negative: bool;
    let total: u64;
    if neg_hi == neg_lo {
        total = wide + m_lo;
        negative = neg_hi;
    } else if wide >= m_lo {
        total = wide - m_lo;
        negative = neg_hi;
    } else {
        total = m_lo - wide;
        negative = neg_lo;
    }
    proof {
        assert((wide + m_lo) * unit == wide * unit + m_lo * unit) by (nonlinear_arith);
        assert((wide - m_lo) * unit == wide * unit - m_lo * unit) by (nonlinear_arith);
        assert((m_lo - wide) * unit == m_lo * unit - wide * unit) by (nonlinear_arith);
        assert(total > 0 ==> total * unit > 0) by (nonlinear_arith)
            requires
                unit > 0,
        ;
    }
    if total == 0 {
        return signed(neg_hi && neg_lo, 0);
    }
    let p: u32 = round_scaled(total, g_lo + 149);
    proof {
        let x: nat = total as nat * unit;
        lemma_pow2_adds(g_lo as nat, 149);
        lemma_pow2_pos(149);
        assert(total as nat * (unit * pow2(149)) == x * pow2(149)) by (nonlinear_arith)
            requires
                x == total as nat * unit,
        ;
        lemma_nearest_even_scales(p as nat, x, 1, pow2(149));
        lemma_round_ratio_is(p, x, 1);
    }
    signed(negative, p)
}

impl Scalar {
    /// The scalar with the given pattern. Every pattern is a scalar.
    pub fn from_bits(bits: u32) -> (r: Scalar)
        ensures
            r == decode(bits),
    {
        Scalar { bits }
    }

    /// The pattern of the scalar.
    pub fn to_bits(self) -> (bits: u32)
        ensures
            bits == encode(self),
    {
        self.bits
    }

    /// Whether the scalar is greater than zero.
    pub fn is_positive(self) -> (r: bool)
        ensures
            r == is_positive(self.bits),
    {
        0 < self.bits && self.bits <= INFINITY
    }

    /// The scalar with the opposite sign.
    pub fn negate(self) -> (r: Scalar)
        ensures
            r.bits == negated(self.bits),
    {
        Scalar { bits: signed(!sign_of(self.bits), magnitude_bits(self.bits)) }
    }

    /// The sum, rounded to the nearest scalar.
    pub fn plus(self, other: Scalar) -> (r: Scalar)
        ensures
            r.bits == sum(self.bits, other.bits),
    {
        let a: u32 = self.bits;
        let b: u32 = other.bits;
        let pa: u32 = magnitude_bits(a);
        let pb: u32 = magnitude_bits(b);
        proof {
            reveal(sum);
        }
        if pa > INFINITY {
            Scalar { bits: quiet(a) }
        } else if pb > INFINITY {
            Scalar { bits: quiet(b) }
        } else if pa == INFINITY {
            if pb == INFINITY && sign_of(a) != sign_of(b) {
                Scalar { bits: DEFAULT_NAN }
            } else {
                self
            }
        } else if pb == INFINITY {
            other
        } else if pa / 0x0080_0000 >= pb / 0x0080_0000 {
            Scalar { bits: plus_ordered(a, b) }
        } else {
            Scalar { bits: plus_ordered(b, a) }
        }
    }

    /// The difference, rounded to the nearest scalar.
    pub fn minus(self, other: Scalar) -> (r: Scalar)
        ensures
            r.bits == difference(self.bits, other.bits),
    {
        self.plus(other.negate())
    }

    /// The product, rounded to the nearest scalar.
    pub fn times(self, other: Scalar) -> (r: Scalar)
        ensures
            r.bits == product(self.bits, other.bits),
    {
        let a: u32 = self.bits;
        let b: u32 = other.bits;
        let pa: u32 = magnitude_bits(a);
        let pb: u32 = magnitude_bits(b);
        let negative: bool = sign_of(a) != sign_of(b);
        proof {
            reveal(product);
        }
        if pa > INFINITY {
            Scalar { bits: quiet(a) }
        } else if pb > INFINITY {
            Scalar { bits: quiet(b) }
        } else if pa == INFINITY || pb == INFINITY {
            if pa == 0 || pb == 0 {
                Scalar { bits: DEFAULT_NAN }
            } else {
                Scalar { bits: signed(negative, INFINITY) }
            }
        } else {
            let (ma, ga) = unpack(pa);
            let (mb, gb) = unpack(pb);
            proof {
                assert(ma * mb < 0x0100_0000 * 0x0100_0000) by (nonlinear_arith)
                    requires
                        ma < 0x0100_0000,
                        mb < 0x0100_0000,
                ;
                lemma_pow2_adds(ga as nat, gb as nat);
                let ua = pow2(ga as nat);
                let ub = pow2(gb as nat);
                assert((ma * ua) * (mb * ub) == (ma * mb) * (ua * ub)) by (nonlinear_arith);
            }
            let p: u32 = round_scaled(ma * mb, ga + gb);
            proof {
                lemma_pow2_pos(149);
                lemma_round_ratio_is(
                    p,
                    magnitude(pa as nat) * magnitude(pb as nat),
                    pow2(149),
                );
            }
            Scalar { bits: signed(negative, p) }
        }
    }
}

} // verus!
