//! Rounding a scaled integer to the nearest pattern, in integer code.

use vstd::prelude::*;
use vstd::arithmetic::div_mod::lemma_fundamental_div_mod;
use vstd::arithmetic::power2::{
    lemma2_to64, lemma2_to64_rest, lemma_pow2_adds, lemma_pow2_pos, lemma_pow2_strictly_increases,
    lemma_pow2_unfold, pow2,
};
use vstd::bits::lemma_u64_shl_is_mul;
use crate::nearest::{
    lemma_magnitude_increases, lemma_magnitude_of_infinity, lemma_magnitude_of_parts,
    lemma_magnitude_step, lemma_nearest_even_overflow, lemma_parts_of_pattern,
    lemma_pow2_increases,
};
use crate::scalar::{magnitude, nearest_even, ulp_exponent, INFINITY};

verus! {

/// `r` is the integer nearest to `n / u`; of two equally near integers the
/// even one.
pub open spec fn rounds_to(r: nat, n: nat, u: nat) -> bool {
    &&& if r % 2 == 0 {
        2 * n <= (2 * r + 1) * u
    } else {
        2 * n < (2 * r + 1) * u
    }
    &&& r > 0 ==> if r % 2 == 0 {
        (2 * r - 1) * u <= 2 * n
    } else {
        (2 * r - 1) * u < 2 * n
    }
}

/// An integer multiple of the unit rounds to its factor.
pub proof fn lemma_rounds_to_exact(r: nat, u: nat)
    by (nonlinear_arith)
    requires
        u > 0,
    ensures
        rounds_to(r, r * u, u),
{
}

/// Rounding to an integer sees only the ratio.
pub proof fn lemma_rounds_to_scales(r: nat, n: nat, u: nat, c: nat)
    by (nonlinear_arith)
    requires
        c > 0,
        rounds_to(r, n, u),
    ensures
        rounds_to(r, n * c, u * c),
{
    assert((2 * r + 1) * (u * c) == ((2 * r + 1) * u) * c);
    assert(2 * (n * c) == (2 * n) * c);
    if r > 0 {
        assert((2 * r - 1) * (u * c) == ((2 * r - 1) * u) * c);
    }
}

/// The rounded integer lies within the integer bounds of the ratio.
pub proof fn lemma_rounds_to_bounds(r: nat, n: nat, u: nat, lo: nat, hi: nat)
    by (nonlinear_arith)
    requires
        u > 0,
        lo * u <= n,
        n < hi * u,
        rounds_to(r, n, u),
    ensures
        lo <= r <= hi,
{
    if r < lo {
        assert((2 * r + 1) * u < 2 * (lo * u));
    }
    if r > hi {
        assert((2 * r - 1) * u > 2 * (hi * u));
    }
}

/// A ratio whose significand at exponent offset `g` rounds to `sig` rounds to
/// the pattern assembled from `g` and `sig`. Above the subnormal range the
/// ratio has to reach the binade of `g`, where the patterns below lie closer.
pub proof fn lemma_nearest_even_of_parts(g: nat, sig: nat, n: nat, d: nat)
    requires
        d > 0,
        g <= 253,
        sig <= 0x0100_0000,
        g > 0 ==> sig >= 0x0080_0000,
        g > 0 ==> n >= 0x0080_0000 * (d * pow2(g)),
        rounds_to(sig, n, d * pow2(g)),
    ensures
        nearest_even(g * 0x0080_0000 + sig, n, d),
{
    let p = g * 0x0080_0000 + sig;
    let u = pow2(g);
    lemma_pow2_pos(g);
    lemma_magnitude_of_parts(g, sig);
    assert(p % 2 == sig % 2);
    assert(p <= INFINITY);
    if p < INFINITY {
        lemma_magnitude_step(p);
        let w = pow2(ulp_exponent(p));
        assert(w >= u) by {
            lemma_parts_of_pattern(p);
            if ulp_exponent(p) != g {
                assert(sig == 0x0100_0000);
                assert(ulp_exponent(p) == g + 1);
                lemma_pow2_strictly_increases(g, g + 1);
            }
        }
        assert(d * (sig * u + (sig * u + w)) >= (2 * sig + 1) * (d * u)) by (nonlinear_arith)
            requires
                w >= u,
        ;
    }
    if p > 0 {
        if sig > 0x0080_0000 || g == 0 {
            lemma_magnitude_of_parts(g, (sig - 1) as nat);
            assert(p - 1 == g * 0x0080_0000 + (sig - 1));
            assert(d * ((sig - 1) * u + sig * u) == (2 * sig - 1) * (d * u)) by (nonlinear_arith)
                requires
                    sig > 0,
            ;
        } else {
            lemma_magnitude_increases((p - 1) as nat, p);
            let m = magnitude((p - 1) as nat);
            assert(d * (m + sig * u) < 2 * n) by (nonlinear_arith)
                requires
                    d > 0,
                    m < sig * u,
                    sig == 0x0080_0000,
                    n >= 0x0080_0000 * (d * u),
            ;
        }
    }
}

/// `2^k` as a machine integer.
pub fn power_of_two(k: u32) -> (r: u64)
    requires
        k <= 62,
    ensures
        r == pow2(k as nat),
{
    proof {
        lemma_pow2_increases(k as nat, 62);
        lemma2_to64_rest();
        lemma_u64_shl_is_mul(1, k as u64);
    }
    1u64 << k
}

/// The position of the highest set bit.
pub fn top_bit(m: u64) -> (h: u32)
    requires
        m > 0,
    ensures
        h <= 63,
        pow2(h as nat) <= m < 2 * pow2(h as nat),
{
    let mut h: u32 = 0;
    let mut rest: u64 = m;
    proof {
        lemma2_to64();
    }
    while rest > 1
        invariant
            rest >= 1,
            h <= 63,
            rest * pow2(h as nat) <= m < (rest + 1) * pow2(h as nat),
        decreases rest,
    {
        proof {
            let u = pow2(h as nat);
            let half = (rest / 2) as nat;
            lemma_pow2_unfold((h + 1) as nat);
            lemma_pow2_pos(h as nat);
            assert(half * (2 * u) <= rest * u && (rest + 1) * u <= (half + 1) * (2 * u))
                by (nonlinear_arith)
                requires
                    2 * half <= rest <= 2 * half + 1,
                    u > 0,
            ;
            assert(2 * u <= m) by (nonlinear_arith)
                requires
                    rest * u <= m,
                    rest >= 2,
                    u > 0,
            ;
            if h >= 63 {
                lemma2_to64();
                lemma_pow2_increases(64, (h + 1) as nat);
            }
        }
        rest = rest / 2;
        h = h + 1;
    }
    h
}

/// The integer nearest to `m / 2^s`, the even one of two equally near.
pub fn div_round_even(m: u64, s: u32) -> (r: u64)
    requires
        1 <= s <= 62,
    ensures
        rounds_to(r as nat, m as nat, pow2(s as nat)),
        r <= m,
{
    let unit: u64 = power_of_two(s);
    proof {
        lemma_pow2_pos(s as nat);
    }
    let half: u64 = unit / 2;
    let q: u64 = m / unit;
    let rem: u64 = m % unit;
    proof {
        lemma_pow2_unfold(s as nat);
        lemma_pow2_pos((s - 1) as nat);
        lemma_fundamental_div_mod(m as int, unit as int);
        assert(unit == 2 * half);
        assert(unit * q == q * unit) by (nonlinear_arith);
        assert((2 * q + 1) * unit == 2 * (q * unit) + unit) by (nonlinear_arith);
        assert((2 * q + 3) * unit == 2 * (q * unit) + 3 * unit) by (nonlinear_arith);
        assert(q > 0 ==> (2 * q - 1) * unit == 2 * (q * unit) - unit) by (nonlinear_arith);
        assert(q <= m / 2) by (nonlinear_arith)
            requires
                m == q * unit + rem,
                unit >= 2,
        ;
    }
    if rem > half || (rem == half && q % 2 == 1) {
        q + 1
    } else {
        q
    }
}

/// A significand shifted left by `ls` bits is exact at exponent offset `g`.
proof fn lemma_shifted_left(m: nat, ls: nat, g: nat, t: nat)
    requires
        t == ls + 149 + g,
    ensures
        m * pow2(t) == (m * pow2(ls)) * (pow2(149) * pow2(g)),
        rounds_to(m * pow2(ls), m * pow2(t), pow2(149) * pow2(g)),
{
    let w = pow2(ls);
    let u = pow2(149) * pow2(g);
    lemma_pow2_adds(149, g);
    lemma_pow2_adds(ls, 149 + g);
    lemma_pow2_pos(149 + g);
    assert(m * (w * u) == (m * w) * u) by (nonlinear_arith);
    lemma_rounds_to_exact(m * w, u);
}

/// A significand rounded after a right shift by `s` bits is rounded at
/// exponent offset `g`.
proof fn lemma_shifted_right(sig: nat, m: nat, s: nat, g: nat, t: nat)
    requires
        s + t == 149 + g,
        rounds_to(sig, m, pow2(s)),
    ensures
        rounds_to(sig, m * pow2(t), pow2(149) * pow2(g)),
{
    lemma_pow2_adds(149, g);
    lemma_pow2_adds(s, t);
    lemma_pow2_pos(t);
    lemma_rounds_to_scales(sig, m, pow2(s), pow2(t));
}

/// The bounds of a number whose highest set bit is `h`, after a shift by
/// `k` bits to the left.
proof fn lemma_top_bit_shifted(m: nat, h: nat, k: nat)
    requires
        pow2(h) <= m < 2 * pow2(h),
    ensures
        pow2(h + k) <= m * pow2(k) < 2 * pow2(h + k),
{
    let w = pow2(k);
    let u = pow2(h);
    lemma_pow2_adds(h, k);
    lemma_pow2_pos(k);
    assert(u * w <= m * w < 2 * (u * w)) by (nonlinear_arith)
        requires
            u <= m < 2 * u,
            w > 0,
    ;
}

/// The magnitude pattern nearest to the number `m * 2^(t - 298)`, the even
/// one of two equally near: `m * 2^t` counts units of `2^-298`, fine enough for
/// the product of two subnormals, and `2^149` of them make the unit of
/// `magnitude`.
///
/// The highest set bit of `m` decides the binade. Within it the significand
/// is `m` shifted to 24 bits, to the left exactly, to the right with rounding;
/// a significand that rounds up to `2^24` carries into the exponent by plain
/// addition. Below the normal range the shift is fixed and the significand
/// may be short.
pub fn round_scaled(m: u64, t: u32) -> (p: u32)
    requires
        m < 0x4000_0000_0000_0000,
        t <= 1024,
    ensures
        nearest_even(p as nat, m as nat * pow2(t as nat), pow2(149)),
{
    let ghost n: nat = m as nat * pow2(t as nat);
    let ghost d: nat = pow2(149);
    proof {
        lemma_pow2_pos(149);
        lemma_pow2_pos(t as nat);
    }
    if m == 0 {
        assert(n == 0) by (nonlinear_arith)
            requires
                n == m * pow2(t as nat),
                m == 0,
        ;
        return 0;
    }
    // m * 2^t lies in [2^(h + t), 2^(h + t + 1)), and 2^172 units of 2^-298
    // are the smallest normal number.
    let h: u32 = top_bit(m);
    proof {
        lemma2_to64_rest();
        if h >= 62 {
            lemma_pow2_increases(62, h as nat);
        }
        lemma_top_bit_shifted(m as nat, h as nat, t as nat);
    }
    if h + t > 172 {
        // Normal, with exponent field g + 1.
        let g: u32 = h + t - 172;
        if g >= 254 {
            proof {
                lemma_magnitude_of_infinity();
                lemma_pow2_increases(426, (h + t) as nat);
                lemma_pow2_adds(149, 277);
                lemma_nearest_even_overflow(n, d);
            }
            return INFINITY;
        }
        let sig: u64;
        if h <= 23 {
            let ls: u32 = 23 - h;
            let w: u64 = power_of_two(ls);
            proof {
                lemma2_to64();
                lemma_top_bit_shifted(m as nat, h as nat, ls as nat);
                lemma_shifted_left(m as nat, ls as nat, g as nat, t as nat);
            }
            sig = m * w;
            proof {
                let u = pow2(149) * pow2(g as nat);
                assert(n >= 0x0080_0000 * u) by (nonlinear_arith)
                    requires
                        n == sig * u,
                        sig >= 0x0080_0000,
                ;
            }
        } else {
            let s: u32 = h - 23;
            sig = div_round_even(m, s);
            proof {
                let u = pow2(149) * pow2(g as nat);
                let w = pow2(s as nat);
                lemma2_to64();
                lemma_pow2_adds(23, s as nat);
                lemma_pow2_pos(s as nat);
                lemma_rounds_to_bounds(sig as nat, m as nat, w, 0x0080_0000, 0x0100_0000);
                lemma_shifted_right(sig as nat, m as nat, s as nat, g as nat, t as nat);
                lemma_pow2_adds(s as nat, t as nat);
                lemma_pow2_adds(149, g as nat);
                assert(n >= 0x0080_0000 * u) by (nonlinear_arith)
                    requires
                        n == m * pow2(t as nat),
                        m >= 0x0080_0000 * w,
                        u == w * pow2(t as nat),
                ;
            }
        }
        proof {
            lemma_nearest_even_of_parts(g as nat, sig as nat, n, d);
        }
        let p: u64 = g as u64 * 0x0080_0000 + sig;
        p as u32
    } else {
        // Subnormal, or in the first normal binade: the unit in the last
        // place is 2^-149 either way.
        let sig: u64;
        if t >= 149 {
            let ls: u32 = t - 149;
            let w: u64 = power_of_two(ls);
            proof {
                lemma2_to64();
                lemma_top_bit_shifted(m as nat, h as nat, ls as nat);
                lemma_pow2_increases((h + ls) as nat, 23);
                lemma_shifted_left(m as nat, ls as nat, 0, t as nat);
            }
            sig = m * w;
        } else {
            let s: u32 = 149 - t;
            if s >= 63 {
                sig = 0;
                proof {
                    let w = pow2(s as nat);
                    lemma_pow2_increases(63, s as nat);
                    assert((2 * 0 + 1) * w == w) by (nonlinear_arith);
                    assert(rounds_to(0, m as nat, w));
                }
            } else {
                sig = div_round_even(m, s);
                proof {
                    lemma2_to64();
                    lemma_pow2_unfold((h + 1) as nat);
                    lemma_pow2_increases((h + 1) as nat, (24 + s) as nat);
                    lemma_pow2_adds(24, s as nat);
                    lemma_pow2_pos(s as nat);
                    lemma_rounds_to_bounds(sig as nat, m as nat, pow2(s as nat), 0, 0x0100_0000);
                }
            }
            proof {
                lemma_shifted_right(sig as nat, m as nat, s as nat, 0, t as nat);
            }
        }
        proof {
            lemma2_to64();
            lemma_nearest_even_of_parts(0, sig as nat, n, d);
        }
        sig as u32
    }
}

} // verus!
