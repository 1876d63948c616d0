//! Fixed-point scalar arithmetic.
//!
//! Every scalar quantity of this crate (meters, radians, reciprocal meters)
//! is a signed 64-bit count of units of `1 / SCALE`, so values are exact
//! decimal fractions and all arithmetic on them is integer arithmetic.
//! Products and quotients are computed in 128 bits and rounded to the
//! nearest unit, ties away from zero.

use vstd::arithmetic::div_mod::{
    lemma_div_is_ordered, lemma_div_multiples_vanish_fancy, lemma_fundamental_div_mod,
};
use vstd::prelude::*;

verus! {

/// Number of fixed-point units in one meter and in one radian.
pub const SCALE: i64 = 100_000_000_000;

/// Half of `SCALE`: one half, as a fixed-point value.
pub const HALF_SCALE: i64 = 50_000_000_000;

/// `SCALE * SCALE`, the divisor that brings a product of two fixed-point
/// values back to fixed point.
pub const SCALE_SQ: i128 = 10_000_000_000_000_000_000_000;

/// Largest magnitude accepted by `div_round_i128`; small enough that the
/// 128-bit rounding arithmetic cannot overflow.
pub const DIV_ARG_MAX: i128 = 10_000_000_000_000_000_000_000_000_000_000_000_000;

/// Quotient of `a / d` rounded to the nearest integer, ties away from zero.
/// Meaningful for `d > 0`.
pub open spec fn div_round(a: int, d: int) -> int {
    if a >= 0 {
        (2 * a + d) / (2 * d)
    } else {
        -((2 * (-a) + d) / (2 * d))
    }
}

/// `v` forced into `[-SCALE, SCALE]`.
pub open spec fn clamp_scaled(v: int) -> int {
    if v < -SCALE {
        -SCALE as int
    } else if v > SCALE {
        SCALE as int
    } else {
        v
    }
}

/// Rounding to nearest is an odd function of the numerator.
pub proof fn lemma_div_round_odd(a: int, d: int)
    requires
        d > 0,
    ensures
        div_round(-a, d) == -div_round(a, d),
{
    if a == 0 {
        assert(div_round(0, d) == d / (2 * d));
        assert(d / (2 * d) == 0) by {
            lemma_fundamental_div_mod(d, 2 * d);
            assert(d / (2 * d) == 0) by (nonlinear_arith)
                requires
                    d > 0,
                    d == 2 * d * (d / (2 * d)) + d % (2 * d),
                    0 <= d % (2 * d) < 2 * d,
            ;
        }
    } else if a > 0 {
        assert(div_round(-a, d) == -((2 * a + d) / (2 * d)));
    } else {
        assert(div_round(-a, d) == (2 * (-a) + d) / (2 * d));
    }
}

/// A quotient rounded to nearest differs from the exact ratio by at most
/// one, so `|a| <= m` bounds the rounded quotient by `m / d + 1`.
pub proof fn lemma_div_round_le(a: int, m: int, d: int)
    requires
        d > 0,
        0 <= m,
        -m <= a <= m,
    ensures
        -(m / d + 1) <= div_round(a, d) <= m / d + 1,
{
    let q = m / d;
    lemma_fundamental_div_mod(m, d);
    assert(2 * m + d < 2 * d * (q + 2)) by (nonlinear_arith)
        requires
            d > 0,
            m == d * q + m % d,
            m % d < d,
    ;
    if a >= 0 {
        lemma_div_is_ordered(2 * a + d, 2 * m + d, 2 * d);
        lemma_fundamental_div_mod(2 * m + d, 2 * d);
        assert((2 * m + d) / (2 * d) <= q + 1) by (nonlinear_arith)
            requires
                d > 0,
                2 * m + d == 2 * d * ((2 * m + d) / (2 * d)) + (2 * m + d) % (2 * d),
                0 <= (2 * m + d) % (2 * d),
                2 * m + d < 2 * d * (q + 2),
        ;
        assert(0 <= (2 * a + d) / (2 * d)) by {
            lemma_fundamental_div_mod(2 * a + d, 2 * d);
            assert(0 <= (2 * a + d) / (2 * d)) by (nonlinear_arith)
                requires
                    d > 0,
                    a >= 0,
                    2 * a + d == 2 * d * ((2 * a + d) / (2 * d)) + (2 * a + d) % (2 * d),
                    (2 * a + d) % (2 * d) < 2 * d,
            ;
        }
    } else {
        lemma_div_is_ordered(2 * (-a) + d, 2 * m + d, 2 * d);
        lemma_fundamental_div_mod(2 * m + d, 2 * d);
        assert((2 * m + d) / (2 * d) <= q + 1) by (nonlinear_arith)
            requires
                d > 0,
                2 * m + d == 2 * d * ((2 * m + d) / (2 * d)) + (2 * m + d) % (2 * d),
                0 <= (2 * m + d) % (2 * d),
                2 * m + d < 2 * d * (q + 2),
        ;
        assert(0 <= (2 * (-a) + d) / (2 * d)) by {
            lemma_fundamental_div_mod(2 * (-a) + d, 2 * d);
            assert(0 <= (2 * (-a) + d) / (2 * d)) by (nonlinear_arith)
                requires
                    d > 0,
                    -a >= 0,
                    2 * (-a) + d == 2 * d * ((2 * (-a) + d) / (2 * d)) + (2 * (-a) + d) % (2
                        * d),
                    (2 * (-a) + d) % (2 * d) < 2 * d,
            ;
        }
    }
}

/// Rounding a quotient to nearest leaves a remainder of at most half the
/// (even) divisor on either side.
pub proof fn lemma_div_round_rem(a: int, d: int)
    requires
        d > 0,
        d % 2 == 0,
    ensures
        -(d / 2) <= a - div_round(a, d) * d <= d / 2,
{
    if a >= 0 {
        let q = (2 * a + d) / (2 * d);
        lemma_fundamental_div_mod(2 * a + d, 2 * d);
        assert(-(d / 2) <= a - q * d <= d / 2) by (nonlinear_arith)
            requires
                d > 0,
                d % 2 == 0,
                2 * a + d == 2 * d * q + (2 * a + d) % (2 * d),
                0 <= (2 * a + d) % (2 * d) < 2 * d,
        ;
    } else {
        let q = (2 * (-a) + d) / (2 * d);
        lemma_fundamental_div_mod(2 * (-a) + d, 2 * d);
        assert(-(d / 2) <= a - (-q) * d <= d / 2) by (nonlinear_arith)
            requires
                d > 0,
                d % 2 == 0,
                a < 0,
                2 * (-a) + d == 2 * d * q + (2 * (-a) + d) % (2 * d),
                0 <= (2 * (-a) + d) % (2 * d) < 2 * d,
        ;
    }
}

/// An exact multiple of the divisor rounds to the exact quotient.
pub proof fn lemma_div_round_exact(c: int, d: int)
    requires
        d > 0,
    ensures
        div_round(c * d, d) == c,
{
    if c >= 0 {
        assert(2 * (c * d) + d == 2 * d * c + d) by (nonlinear_arith);
        lemma_div_multiples_vanish_fancy(c, d, 2 * d);
    } else {
        assert(c * d < 0) by (nonlinear_arith)
            requires
                c < 0,
                d > 0,
        ;
        assert(2 * (-(c * d)) + d == 2 * d * (-c) + d) by (nonlinear_arith);
        lemma_div_multiples_vanish_fancy(-c, d, 2 * d);
    }
}

/// Rounding to nearest is monotone in the numerator.
pub proof fn lemma_div_round_ordered(a1: int, a2: int, d: int)
    requires
        d > 0,
        a1 <= a2,
    ensures
        div_round(a1, d) <= div_round(a2, d),
{
    if a1 >= 0 {
        lemma_div_is_ordered(2 * a1 + d, 2 * a2 + d, 2 * d);
    } else if a2 < 0 {
        lemma_div_is_ordered(2 * (-a2) + d, 2 * (-a1) + d, 2 * d);
    } else {
        lemma_div_round_le(a1, -a1, d);
        lemma_div_round_le(a2, a2, d);
        lemma_fundamental_div_mod(2 * (-a1) + d, 2 * d);
        assert(div_round(a1, d) <= 0) by (nonlinear_arith)
            requires
                d > 0,
                a1 < 0,
                2 * (-a1) + d == 2 * d * ((2 * (-a1) + d) / (2 * d)) + (2 * (-a1) + d) % (2 * d),
                (2 * (-a1) + d) % (2 * d) < 2 * d,
                div_round(a1, d) == -((2 * (-a1) + d) / (2 * d)),
        ;
        lemma_fundamental_div_mod(2 * a2 + d, 2 * d);
        assert(div_round(a2, d) >= 0) by (nonlinear_arith)
            requires
                d > 0,
                a2 >= 0,
                2 * a2 + d == 2 * d * ((2 * a2 + d) / (2 * d)) + (2 * a2 + d) % (2 * d),
                (2 * a2 + d) % (2 * d) < 2 * d,
                div_round(a2, d) == (2 * a2 + d) / (2 * d),
        ;
    }
}

/// Quotient of `a / d` rounded to the nearest integer, ties away from zero.
pub fn div_round_i128(a: i128, d: i128) -> (r: i128)
    requires
        0 < d <= DIV_ARG_MAX,
        -DIV_ARG_MAX <= a <= DIV_ARG_MAX,
    ensures
        r == div_round(a as int, d as int),
{
    proof {
        lemma_div_round_le(a as int, DIV_ARG_MAX as int, d as int);
        lemma_div_round_le(a as int, if a >= 0 { a as int } else { -a as int }, d as int);
    }
    if a >= 0 {
        let q: u128 = (2 * (a as u128) + (d as u128)) / (2 * (d as u128));
        q as i128
    } else {
        let m: i128 = -a;
        let q: u128 = (2 * (m as u128) + (d as u128)) / (2 * (d as u128));
        -(q as i128)
    }
}

/// `v` forced into `[-SCALE, SCALE]`.
pub fn clamp_scaled_i64(v: i64) -> (r: i64)
    ensures
        r == clamp_scaled(v as int),
{
    if v < -SCALE {
        -SCALE
    } else if v > SCALE {
        SCALE
    } else {
        v
    }
}

} // verus!
