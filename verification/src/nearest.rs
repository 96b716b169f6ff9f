//! The laws of magnitudes and of rounding to the nearest pattern.

use vstd::prelude::*;
use vstd::arithmetic::power2::{
    lemma2_to64, lemma_pow2_adds, lemma_pow2_pos, lemma_pow2_strictly_increases, lemma_pow2_unfold,
    pow2,
};
use crate::scalar::{magnitude, nearest_even, round_ratio, significand, ulp_exponent, INFINITY};

verus! {

/// Powers of two grow with the exponent.
pub proof fn lemma_pow2_increases(a: nat, b: nat)
    requires
        a <= b,
    ensures
        pow2(a) <= pow2(b),
{
    if a < b {
        lemma_pow2_strictly_increases(a, b);
    }
}

/// A pattern assembled from an exponent offset `g` and a significand `sig`
/// stands for `sig * 2^g`, also where `sig` has reached `2^24` and carries into
/// the exponent.
pub proof fn lemma_magnitude_of_parts(g: nat, sig: nat)
    requires
        sig <= 0x0100_0000,
        g > 0 ==> sig >= 0x0080_0000,
    ensures
        magnitude(g * 0x0080_0000 + sig) == sig * pow2(g),
{
    if sig == 0x0100_0000 {
        // The significand has carried: the pattern opens the next binade,
        // with half the significand at twice the unit.
        lemma_pow2_unfold(g + 1);
        assert(0x0080_0000 * pow2(g + 1) == 0x0100_0000 * pow2(g)) by (nonlinear_arith)
            requires
                pow2(g + 1) == 2 * pow2(g),
        ;
    }
}

/// Every pattern is assembled from its own exponent offset and significand.
pub proof fn lemma_parts_of_pattern(p: nat)
    ensures
        p == ulp_exponent(p) * 0x0080_0000 + significand(p),
        significand(p) < 0x0100_0000,
        ulp_exponent(p) > 0 ==> significand(p) >= 0x0080_0000,
{
}

/// The next pattern is one unit in the last place further from zero.
pub proof fn lemma_magnitude_step(p: nat)
    ensures
        magnitude(p + 1) == magnitude(p) + pow2(ulp_exponent(p)),
{
    let g = ulp_exponent(p);
    let sig = significand(p);
    lemma_magnitude_of_parts(g, sig + 1);
    assert((sig + 1) * pow2(g) == sig * pow2(g) + pow2(g)) by (nonlinear_arith);
}

/// Magnitudes grow with the patterns.
pub proof fn lemma_magnitude_increases(p: nat, q: nat)
    requires
        p < q,
    ensures
        magnitude(p) < magnitude(q),
    decreases q - p,
{
    lemma_magnitude_step(p);
    lemma_pow2_pos(ulp_exponent(p));
    if p + 1 < q {
        lemma_magnitude_increases(p + 1, q);
    }
}

/// Infinity stands where `2^277` units would.
pub proof fn lemma_magnitude_of_infinity()
    ensures
        magnitude(INFINITY as nat) == pow2(277),
{
    lemma2_to64();
    lemma_pow2_adds(23, 254);
}

/// At most one pattern is nearest to a ratio.
pub proof fn lemma_nearest_even_unique(p1: nat, p2: nat, n: nat, d: nat)
    requires
        d > 0,
        nearest_even(p1, n, d),
        nearest_even(p2, n, d),
    ensures
        p1 == p2,
{
    if p1 < p2 {
        lemma_nearest_even_excludes(p1, p2, n, d);
    } else if p2 < p1 {
        lemma_nearest_even_excludes(p2, p1, n, d);
    }
}

/// Where a pattern is nearest to a ratio, no larger pattern is.
proof fn lemma_nearest_even_excludes(lo: nat, hi: nat, n: nat, d: nat)
    requires
        d > 0,
        lo < hi,
        nearest_even(lo, n, d),
    ensures
        !nearest_even(hi, n, d),
{
    let above = magnitude(lo) + magnitude(lo + 1);
    let below = magnitude((hi - 1) as nat) + magnitude(hi);
    if lo + 1 < hi {
        lemma_magnitude_increases(lo, (hi - 1) as nat);
        lemma_magnitude_increases(lo + 1, hi);
        assert(d * above < d * below) by (nonlinear_arith)
            requires
                d > 0,
                above < below,
        ;
    }
}

/// Every ratio has a nearest pattern.
pub proof fn lemma_nearest_even_exists(n: nat, d: nat) -> (p: u32)
    requires
        d > 0,
    ensures
        nearest_even(p as nat, n, d),
{
    assert(magnitude(0) == 0) by {
        lemma_magnitude_of_parts(0, 0);
    }
    let q = lemma_floor_pattern(0, n, d);
    if q > 0 {
        lemma_magnitude_increases((q - 1) as nat, q);
        lemma_sum_below_double(d, magnitude((q - 1) as nat), magnitude(q));
    }
    if q == INFINITY {
        return INFINITY;
    }
    let up = q + 1;
    if up < INFINITY {
        lemma_magnitude_increases(up, up + 1);
        lemma_sum_above_double(d, magnitude(up), magnitude(up + 1));
    }
    let middle = d * (magnitude(q) + magnitude(up));
    if 2 * n < middle || (2 * n == middle && q % 2 == 0) {
        q as u32
    } else {
        up as u32
    }
}

/// The largest pattern from `p` on whose magnitude does not exceed `n / d`.
proof fn lemma_floor_pattern(p: nat, n: nat, d: nat) -> (q: nat)
    requires
        p <= INFINITY,
        d * magnitude(p) <= n,
    ensures
        p <= q <= INFINITY,
        d * magnitude(q) <= n,
        q < INFINITY ==> n < d * magnitude(q + 1),
    decreases INFINITY - p,
{
    if p < INFINITY && d * magnitude(p + 1) <= n {
        lemma_floor_pattern(p + 1, n, d)
    } else {
        p
    }
}

proof fn lemma_sum_below_double(d: nat, lo: nat, hi: nat)
    by (nonlinear_arith)
    requires
        d > 0,
        lo < hi,
    ensures
        d * (lo + hi) < 2 * (d * hi),
{
}

proof fn lemma_sum_above_double(d: nat, lo: nat, hi: nat)
    by (nonlinear_arith)
    requires
        d > 0,
        lo < hi,
    ensures
        2 * (d * lo) < d * (lo + hi),
{
}

/// What a ratio rounds to is nearest to it: rounding is defined on every
/// ratio.
pub proof fn lemma_round_ratio_is_nearest(n: nat, d: nat)
    requires
        d > 0,
    ensures
        nearest_even(round_ratio(n, d) as nat, n, d),
{
    let p = lemma_nearest_even_exists(n, d);
    assert(nearest_even(p as nat, n, d));
}

/// A pattern that is nearest to a ratio is what the ratio rounds to.
pub proof fn lemma_round_ratio_is(p: u32, n: nat, d: nat)
    requires
        d > 0,
        nearest_even(p as nat, n, d),
    ensures
        round_ratio(n, d) == p,
{
    lemma_nearest_even_unique(p as nat, round_ratio(n, d) as nat, n, d);
}

/// A number that a pattern stands for rounds to that pattern.
pub proof fn lemma_round_ratio_of_magnitude(p: u32)
    requires
        p <= INFINITY,
    ensures
        round_ratio(magnitude(p as nat), 1) == p,
{
    let m = magnitude(p as nat);
    if p < INFINITY {
        lemma_magnitude_increases(p as nat, (p + 1) as nat);
    }
    if p > 0 {
        lemma_magnitude_increases((p - 1) as nat, p as nat);
    }
    lemma_round_ratio_is(p, m, 1);
}

/// Rounding sees only the ratio: a common factor changes nothing.
pub proof fn lemma_nearest_even_scales(p: nat, n: nat, d: nat, c: nat)
    requires
        c > 0,
    ensures
        nearest_even(p, n * c, d * c) == nearest_even(p, n, d),
{
    if p < INFINITY {
        lemma_scaled_comparison(n, d, magnitude(p) + magnitude(p + 1), c);
    }
    if p > 0 {
        lemma_scaled_comparison(n, d, magnitude((p - 1) as nat) + magnitude(p), c);
    }
}

proof fn lemma_scaled_comparison(n: nat, d: nat, x: nat, c: nat)
    by (nonlinear_arith)
    requires
        c > 0,
    ensures
        (2 * (n * c) <= (d * c) * x) == (2 * n <= d * x),
        (2 * (n * c) < (d * c) * x) == (2 * n < d * x),
        ((d * c) * x <= 2 * (n * c)) == (d * x <= 2 * n),
        ((d * c) * x < 2 * (n * c)) == (d * x < 2 * n),
{
}

/// A ratio that reaches `2^277` units rounds to infinity.
pub proof fn lemma_nearest_even_overflow(n: nat, d: nat)
    requires
        d > 0,
        n >= d * magnitude(INFINITY as nat),
    ensures
        nearest_even(INFINITY as nat, n, d),
{
    lemma_magnitude_increases((INFINITY - 1) as nat, INFINITY as nat);
    let m = magnitude((INFINITY - 1) as nat);
    let top = magnitude(INFINITY as nat);
    assert(d * (m + top) <= 2 * n) by (nonlinear_arith)
        requires
            d > 0,
            m < top,
            n >= d * top,
    ;
}

/// A sum stays at the pattern of its larger operand where the other operand
/// is under a quarter of that pattern's unit in the last place.
pub proof fn lemma_nearest_even_absorbs(p: nat, x: nat)
    requires
        0 < p < INFINITY,
        ulp_exponent(p) >= 1,
        -pow2(ulp_exponent(p)) < 4 * (x - magnitude(p)) < pow2(ulp_exponent(p)),
    ensures
        nearest_even(p, x, 1),
{
    let g = ulp_exponent(p);
    let below = (p - 1) as nat;
    // The next pattern is a whole unit away. The one before is at least half
    // a unit away: it lies in the same binade or in the one below.
    lemma_magnitude_step(p);
    lemma_magnitude_step(below);
    lemma_pow2_adds(1, (g - 1) as nat);
    lemma2_to64();
}

} // verus!
