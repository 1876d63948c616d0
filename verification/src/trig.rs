//! Fixed-point sine and cosine.
//!
//! An angle is a count of `1 / SCALE` radians.  The kernel reduces the
//! angle by whole turns to `[-pi, pi]`, sums the Taylor series of the sine
//! with one rounded division per term, and clamps the result to
//! `[-SCALE, SCALE]`.  Sixteen terms leave the series remainder below one
//! unit over the whole reduced range.

use crate::fixed::{
    clamp_scaled, clamp_scaled_i64, div_round, div_round_i128, lemma_div_round_le,
    lemma_div_round_odd, lemma_div_round_rem, DIV_ARG_MAX, SCALE, SCALE_SQ,
};
use vstd::arithmetic::div_mod::lemma_fundamental_div_mod;
use vstd::prelude::*;

verus! {

/// One pi, in `1 / SCALE` radians (rounded to the nearest unit).
pub const PI_UNITS: i64 = 314_159_265_359;

/// Two pi, in `1 / SCALE` radians.
pub const TWO_PI_UNITS: i64 = 628_318_530_718;

/// Half pi, in `1 / SCALE` radians.
pub const HALF_PI_UNITS: i64 = 157_079_632_679;

/// Largest angle magnitude the kernel accepts.
pub const ANGLE_MAX: i64 = 4_000_000_000_000_000_000;

/// Bound on the magnitude of every Taylor term over the reduced range.
pub const TERM_MAX: i64 = 1_000_000_000_000;

/// Term `j` of the sine series at `x`: `(-1)^j x^(2j+1) / (2j+1)!` in
/// fixed point, each term derived from the previous by one rounded
/// division.
pub open spec fn sine_term(x: int, j: nat) -> int
    decreases j,
{
    if j == 0 {
        x
    } else {
        -div_round(sine_term(x, (j - 1) as nat) * x * x, SCALE_SQ * ((2 * j) * (2 * j + 1)))
    }
}

/// Sum of the first `n` sine terms at `x`.
pub open spec fn sine_sum(x: int, n: nat) -> int
    decreases n,
{
    if n == 0 {
        0
    } else {
        sine_sum(x, (n - 1) as nat) + sine_term(x, (n - 1) as nat)
    }
}

/// `x` reduced by whole turns to `[-pi, pi]`.
pub open spec fn reduce_turns(x: int) -> int {
    x - div_round(x, TWO_PI_UNITS as int) * TWO_PI_UNITS
}

/// The sine of `x`, as this crate computes it.
pub open spec fn sine_scaled(x: int) -> int {
    clamp_scaled(sine_sum(reduce_turns(x), 16))
}

/// The cosine of `x`, as this crate computes it: the sine a quarter turn
/// ahead of the reduced angle.
pub open spec fn cosine_scaled(x: int) -> int {
    sine_scaled(reduce_turns(x) + HALF_PI_UNITS)
}

/// Every sine term over the reduced range stays below `TERM_MAX`.
pub proof fn lemma_sine_term_bound(x: int, j: nat)
    requires
        -PI_UNITS <= x <= PI_UNITS,
    ensures
        -TERM_MAX <= sine_term(x, j) <= TERM_MAX,
    decreases j,
{
    if j == 0 {
    } else if j == 1 {
        let m = PI_UNITS as int * PI_UNITS * PI_UNITS;
        let d = SCALE_SQ * ((2 * j) * (2 * j + 1));
        assert(sine_term(x, 0) == x);
        assert(sine_term(x, 1) == -div_round(x * x * x, d));
        assert(d == 6 * SCALE_SQ) by (nonlinear_arith)
            requires
                j == 1,
                d == SCALE_SQ * ((2 * j) * (2 * j + 1)),
        ;
        assert(-m <= x * x * x <= m) by (nonlinear_arith)
            requires
                -PI_UNITS <= x <= PI_UNITS,
                m == PI_UNITS as int * PI_UNITS * PI_UNITS,
        ;
        lemma_div_round_le(x * x * x, m, d);
        let q = m / d;
        lemma_fundamental_div_mod(m, d);
        assert(q + 1 <= TERM_MAX) by (nonlinear_arith)
            requires
                d == 6 * SCALE_SQ,
                m == PI_UNITS as int * PI_UNITS * PI_UNITS,
                m == d * q + m % d,
                0 <= m % d < d,
        ;
    } else {
        lemma_sine_term_bound(x, (j - 1) as nat);
        let t = sine_term(x, (j - 1) as nat);
        let d = SCALE_SQ * ((2 * j) * (2 * j + 1));
        let m = TERM_MAX as int * PI_UNITS * PI_UNITS;
        assert(-m <= t * x * x <= m) by (nonlinear_arith)
            requires
                -TERM_MAX <= t <= TERM_MAX,
                -PI_UNITS <= x <= PI_UNITS,
                m == TERM_MAX as int * PI_UNITS * PI_UNITS,
        ;
        assert(d >= 20 * SCALE_SQ) by (nonlinear_arith)
            requires
                j >= 2,
                d == SCALE_SQ * ((2 * j) * (2 * j + 1)),
        ;
        lemma_div_round_le(t * x * x, m, d);
        let q = m / d;
        lemma_fundamental_div_mod(m, d);
        assert(q + 1 <= TERM_MAX) by (nonlinear_arith)
            requires
                d >= 20 * SCALE_SQ,
                m == TERM_MAX as int * PI_UNITS * PI_UNITS,
                m == d * q + m % d,
                0 <= m % d < d,
        ;
    }
}

/// The first `n` sine terms sum to at most `n * TERM_MAX` in magnitude.
pub proof fn lemma_sine_sum_bound(x: int, n: nat)
    requires
        -PI_UNITS <= x <= PI_UNITS,
    ensures
        -(n as int) * TERM_MAX <= sine_sum(x, n) <= (n as int) * TERM_MAX,
    decreases n,
{
    if n == 0 {
    } else {
        lemma_sine_sum_bound(x, (n - 1) as nat);
        lemma_sine_term_bound(x, (n - 1) as nat);
    }
}

/// Every sine term is an odd function of the angle.
pub proof fn lemma_sine_term_odd(x: int, j: nat)
    ensures
        sine_term(-x, j) == -sine_term(x, j),
    decreases j,
{
    if j == 0 {
    } else {
        lemma_sine_term_odd(x, (j - 1) as nat);
        let t = sine_term(x, (j - 1) as nat);
        let d = SCALE_SQ * ((2 * j) * (2 * j + 1));
        assert((-t) * (-x) * (-x) == -(t * x * x)) by (nonlinear_arith);
        assert(d > 0) by (nonlinear_arith)
            requires
                j >= 1,
                d == SCALE_SQ * ((2 * j) * (2 * j + 1)),
        ;
        lemma_div_round_odd(t * x * x, d);
    }
}

/// The partial sine sums are odd functions of the angle.
pub proof fn lemma_sine_sum_odd(x: int, n: nat)
    ensures
        sine_sum(-x, n) == -sine_sum(x, n),
    decreases n,
{
    if n == 0 {
    } else {
        lemma_sine_sum_odd(x, (n - 1) as nat);
        lemma_sine_term_odd(x, (n - 1) as nat);
    }
}

/// Whole-turn reduction is an odd function of the angle.
pub proof fn lemma_reduce_turns_odd(x: int)
    ensures
        reduce_turns(-x) == -reduce_turns(x),
{
    lemma_div_round_odd(x, TWO_PI_UNITS as int);
    assert((-div_round(x, TWO_PI_UNITS as int)) * TWO_PI_UNITS == -(div_round(
        x,
        TWO_PI_UNITS as int,
    ) * TWO_PI_UNITS)) by (nonlinear_arith);
}

/// The computed sine is an odd function of the angle.
pub proof fn lemma_sine_scaled_odd(x: int)
    ensures
        sine_scaled(-x) == -sine_scaled(x),
{
    lemma_reduce_turns_odd(x);
    lemma_sine_sum_odd(reduce_turns(x), 16);
}

/// Reduces an angle by whole turns to `[-pi, pi]`.
fn reduce_angle(x: i64) -> (r: i64)
    requires
        -ANGLE_MAX <= x <= ANGLE_MAX,
    ensures
        r == reduce_turns(x as int),
        -PI_UNITS <= r <= PI_UNITS,
{
    let q: i128 = div_round_i128(x as i128, TWO_PI_UNITS as i128);
    proof {
        lemma_div_round_le(x as int, ANGLE_MAX as int, TWO_PI_UNITS as int);
        lemma_div_round_rem(x as int, TWO_PI_UNITS as int);
    }
    let r128: i128 = x as i128 - q * (TWO_PI_UNITS as i128);
    r128 as i64
}

/// The sine of `x`, rounded to fixed point and clamped to `[-SCALE, SCALE]`.
pub fn sine_units(x: i64) -> (r: i64)
    requires
        -ANGLE_MAX <= x <= ANGLE_MAX,
    ensures
        r == sine_scaled(x as int),
        -SCALE <= r <= SCALE,
{
    let xr: i64 = reduce_angle(x);
    let xw: i128 = xr as i128;
    let mut t: i128 = xw;
    let mut s: i128 = 0;
    let mut j: u64 = 0;
    while j < 16
        invariant
            -PI_UNITS <= xr <= PI_UNITS,
            xw == xr as int,
            0 <= j <= 16,
            t == sine_term(xr as int, j as nat),
            s == sine_sum(xr as int, j as nat),
        decreases 16 - j,
    {
        proof {
            lemma_sine_term_bound(xr as int, j as nat);
            lemma_sine_sum_bound(xr as int, j as nat);
            lemma_sine_term_bound(xr as int, (j + 1) as nat);
        }
        s = s + t;
        let jn: i128 = (j + 1) as i128;
        proof {
            assert(1 <= jn <= 16);
            assert(6 <= (2 * (jn as int)) * (2 * (jn as int) + 1) <= 1200) by (nonlinear_arith)
                requires
                    1 <= jn as int <= 16,
            ;
        }
        let f: i128 = (2 * jn) * (2 * jn + 1);
        let den: i128 = SCALE_SQ * f;
        proof {
            assert(-DIV_ARG_MAX <= t * xw <= DIV_ARG_MAX && -DIV_ARG_MAX <= t * xw * xw
                <= DIV_ARG_MAX) by (nonlinear_arith)
                requires
                    -TERM_MAX <= t <= TERM_MAX,
                    -PI_UNITS <= xw <= PI_UNITS,
            ;
        }
        t = -div_round_i128(t * xw * xw, den);
        j = j + 1;
    }
    proof {
        lemma_sine_sum_bound(xr as int, 16);
    }
    let clamped: i64 = clamp_scaled_i64(s as i64);
    clamped
}

/// The cosine of `x`: the sine a quarter turn ahead of the reduced angle.
pub fn cosine_units(x: i64) -> (r: i64)
    requires
        -ANGLE_MAX <= x <= ANGLE_MAX,
    ensures
        r == cosine_scaled(x as int),
        -SCALE <= r <= SCALE,
{
    let xr: i64 = reduce_angle(x);
    sine_units(xr + HALF_PI_UNITS)
}

} // verus!
