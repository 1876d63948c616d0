//! Quantity types and the curvature profile.
//!
//! Each quantity wraps a fixed-point count of `1 / SCALE` base units
//! (meters for lengths, radians for angles, reciprocal meters for
//! curvature), and arithmetic is only offered between like quantities or
//! through named conversions.

use crate::fixed::{
    div_round, div_round_i128, lemma_div_round_exact, lemma_div_round_le, lemma_div_round_odd,
    lemma_div_round_ordered, DIV_ARG_MAX, HALF_SCALE, SCALE, SCALE_SQ,
};
use crate::trig::{lemma_sine_scaled_odd, sine_scaled, sine_units, HALF_PI_UNITS, PI_UNITS};
use vstd::prelude::*;

verus! {

/// Largest transition-curve length: ten kilometers in fixed-point units.
pub const TCL_MAX: i64 = 1_000_000_000_000_000;

/// Largest curvature magnitude: one reciprocal millimeter, in fixed-point
/// units.
pub const CURV_MAX: i64 = 100_000_000_000_000;

/// Smallest nonzero curvature magnitude.  A flatter curve has a radius
/// beyond fifty thousand kilometers; the profile rounds it to straight so
/// that every representable radius and arc center fits in 64 bits.
pub const CURV_MIN: i64 = 2_000;

/// Largest radius magnitude, the reciprocal of `CURV_MIN`.
pub const RADIUS_MAX: i64 = 5_000_000_000_000_000_000;

/// Smallest radius magnitude, the reciprocal of `CURV_MAX`: one
/// millimeter.
pub const RADIUS_MIN: i64 = 100_000_000;

/// The law by which curvature diminishes from its start value to its end
/// value along the transition curve.
#[derive(Debug, Clone, Copy, PartialEq, Eq, Structural)]
pub enum Diminish {
    /// Half-wavelength sine ease: the rate of curvature change vanishes
    /// at both ends.
    Sine,
    /// Straight-line interpolation: a clothoid-like curve.
    Linear,
}

/// Arc length along the curve, from the curve's own start: a non-negative
/// fixed-point count of meters.
#[derive(Debug, Clone, Copy, PartialEq, Eq, Structural)]
pub struct Subtension(pub i64);

/// Signed curvature: positive curves right, negative left, zero is
/// straight.
#[derive(Debug, Clone, Copy, PartialEq, Eq, Structural)]
pub struct Curvature(pub i64);

/// Signed radius, the reciprocal of a nonzero curvature.
#[derive(Debug, Clone, Copy, PartialEq, Eq, Structural)]
pub struct Radius(pub i64);

/// A central angle: the angle subtended at an arc's center,
/// counterclockwise positive.
#[derive(Debug, Clone, Copy, PartialEq, Eq, Structural)]
pub struct Central(pub i64);

/// A tangent direction: the direction of travel, counterclockwise from
/// the positive x axis.
#[derive(Debug, Clone, Copy, PartialEq, Eq, Structural)]
pub struct Tangential(pub i64);

/// An angle in fixed-point degrees.
#[derive(Debug, Clone, Copy, PartialEq, Eq, Structural)]
pub struct Degree(pub i64);

impl Subtension {
    /// A well-formed arc length is non-negative and within the largest
    /// transition length.
    pub open spec fn wf(self) -> bool {
        0 <= self.0 <= TCL_MAX
    }
}

impl Curvature {
    /// A well-formed curvature is zero or has magnitude within
    /// `[CURV_MIN, CURV_MAX]`, so its radius and arc center are
    /// representable.
    pub open spec fn wf(self) -> bool {
        self.0 == 0 || CURV_MIN <= self.0 <= CURV_MAX || -CURV_MAX <= self.0 <= -CURV_MIN
    }

    /// The zero curvature.
    pub fn straight() -> (r: Curvature)
        ensures
            r.0 == 0,
            r.wf(),
    {
        Curvature(0)
    }

    /// Whether this curvature is straight.
    pub fn is_straight(&self) -> (r: bool)
        ensures
            r == (self.0 == 0),
    {
        self.0 == 0
    }

    /// Whether this curvature curves left.
    pub fn is_left(&self) -> (r: bool)
        ensures
            r == (self.0 < 0),
    {
        self.0 < 0
    }

    /// Whether this curvature curves right.
    pub fn is_right(&self) -> (r: bool)
        ensures
            r == (self.0 > 0),
    {
        self.0 > 0
    }

    /// The curvature of the circle with radius `r`: the rounded
    /// reciprocal.
    pub fn of_radius(r: Radius) -> (k: Curvature)
        requires
            RADIUS_MIN <= r.0 <= RADIUS_MAX || -RADIUS_MAX <= r.0 <= -RADIUS_MIN,
        ensures
            k.0 == recip_scaled(r.0 as int),
            k.wf(),
            k.0 != 0,
            r.0 > 0 ==> k.0 > 0,
            r.0 < 0 ==> k.0 < 0,
    {
        proof {
            lemma_recip_consts();
            lemma_recip_range(r.0 as int, RADIUS_MIN as int, RADIUS_MAX as int, CURV_MIN as int,
                CURV_MAX as int);
        }
        Curvature(recip_units(r.0))
    }

    /// The radius of this curvature: the rounded reciprocal, or `None`
    /// for a straight.
    pub fn r(&self) -> (r: Option<Radius>)
        requires
            self.wf(),
        ensures
            self.0 == 0 ==> r is None,
            self.0 != 0 ==> r == Some(Radius(recip_scaled(self.0 as int) as i64)),
            self.0 != 0 ==> (RADIUS_MIN <= recip_scaled(self.0 as int) <= RADIUS_MAX || -RADIUS_MAX
                <= recip_scaled(self.0 as int) <= -RADIUS_MIN),
    {
        if self.0 == 0 {
            None
        } else {
            proof {
                lemma_recip_consts();
                lemma_recip_range(self.0 as int, CURV_MIN as int, CURV_MAX as int,
                    RADIUS_MIN as int, RADIUS_MAX as int);
            }
            Some(Radius(recip_units(self.0)))
        }
    }

    /// The central angle swept by this curvature over arc length `s`,
    /// counterclockwise positive (so a right curve sweeps negative).
    pub fn a(&self, s: Subtension) -> (r: Central)
        requires
            self.wf(),
            s.wf(),
        ensures
            r.0 == -div_round(self.0 as int * s.0, SCALE as int),
            -SWEEP_MAX <= r.0 <= SWEEP_MAX,
    {
        Central(-sweep_units(self.0, s.0))
    }
}

impl Radius {
    /// Whether this radius, rounded to as many decimal places as `s`
    /// shows, prints exactly as `s`: the comparison the drawing tests
    /// make against expected radii.
    pub fn eq_str(&self, s: &str) -> (r: bool)
        requires
            -crate::decimal::PARSE_MAX <= self.0 <= crate::decimal::PARSE_MAX,
            crate::decimal::frac_width(s@) <= crate::decimal::FRAC_DIGITS,
        ensures
            r == crate::decimal::matches_rounded(self.0 as int, s@),
    {
        crate::decimal::eq_rounded(self.0, s)
    }
}

/// The rounded reciprocal: `SCALE_SQ / |v|` with the sign of `v`, the
/// conversion between a curvature and a radius.  Meaningful for
/// `v != 0`.
pub open spec fn recip_scaled(v: int) -> int {
    if v >= 0 {
        div_round(SCALE_SQ as int, v)
    } else {
        -div_round(SCALE_SQ as int, -v)
    }
}

/// Largest central-angle sweep a single call can produce:
/// `CURV_MAX * TCL_MAX / SCALE` units.
pub const SWEEP_MAX: i64 = 1_000_000_000_000_000_000;

/// The rounded reciprocal of `v`, as a 64-bit value.
fn recip_units(v: i64) -> (r: i64)
    requires
        0 < v <= RADIUS_MAX || -RADIUS_MAX <= v < 0,
        recip_scaled(v as int) <= RADIUS_MAX,
        -RADIUS_MAX <= recip_scaled(v as int),
    ensures
        r == recip_scaled(v as int),
{
    if v >= 0 {
        div_round_i128(SCALE_SQ, v as i128) as i64
    } else {
        -(div_round_i128(SCALE_SQ, -(v as i128)) as i64)
    }
}

/// The four reciprocal bounds are exact: `SCALE_SQ` factors as
/// `CURV_MIN * RADIUS_MAX` and as `CURV_MAX * RADIUS_MIN`.
proof fn lemma_recip_consts()
    ensures
        div_round(SCALE_SQ as int, RADIUS_MAX as int) == CURV_MIN,
        div_round(SCALE_SQ as int, RADIUS_MIN as int) == CURV_MAX,
        div_round(SCALE_SQ as int, CURV_MAX as int) == RADIUS_MIN,
        div_round(SCALE_SQ as int, CURV_MIN as int) == RADIUS_MAX,
{
    assert(CURV_MIN as int * RADIUS_MAX == SCALE_SQ && CURV_MAX as int * RADIUS_MIN == SCALE_SQ
        && RADIUS_MIN as int * CURV_MAX == SCALE_SQ && RADIUS_MAX as int * CURV_MIN == SCALE_SQ)
        by (nonlinear_arith);
    lemma_div_round_exact(CURV_MIN as int, RADIUS_MAX as int);
    lemma_div_round_exact(CURV_MAX as int, RADIUS_MIN as int);
    lemma_div_round_exact(RADIUS_MIN as int, CURV_MAX as int);
    lemma_div_round_exact(RADIUS_MAX as int, CURV_MIN as int);
}

/// The reciprocal of a value in `[lo, hi]` (or its mirror image) lands in
/// `[SCALE_SQ / hi (rounded), SCALE_SQ / lo (rounded)]` (or its mirror
/// image); both ends are given as explicit arguments.
proof fn lemma_recip_range(v: int, lo: int, hi: int, rlo: int, rhi: int)
    requires
        0 < lo <= hi,
        lo <= v <= hi || -hi <= v <= -lo,
        rlo == div_round(SCALE_SQ as int, hi),
        rhi == div_round(SCALE_SQ as int, lo),
        rlo >= 1,
    ensures
        v > 0 ==> rlo <= recip_scaled(v) <= rhi,
        v < 0 ==> -rhi <= recip_scaled(v) <= -rlo,
        recip_scaled(v) != 0,
{
    if v > 0 {
        lemma_recip_ordered(v, hi);
        lemma_recip_ordered(lo, v);
    } else {
        lemma_recip_ordered(-v, hi);
        lemma_recip_ordered(lo, -v);
    }
}

/// For a positive numerator, a larger positive divisor gives a smaller
/// rounded quotient.
proof fn lemma_recip_ordered(d1: int, d2: int)
    requires
        0 < d1 <= d2,
    ensures
        div_round(SCALE_SQ as int, d2) <= div_round(SCALE_SQ as int, d1),
{
    let n = SCALE_SQ as int;
    let q1 = (2 * n + d1) / (2 * d1);
    let q2 = (2 * n + d2) / (2 * d2);
    vstd::arithmetic::div_mod::lemma_fundamental_div_mod(2 * n + d1, 2 * d1);
    vstd::arithmetic::div_mod::lemma_fundamental_div_mod(2 * n + d2, 2 * d2);
    assert(q2 <= q1) by (nonlinear_arith)
        requires
            0 < d1 <= d2,
            n > 0,
            2 * n + d1 == 2 * d1 * q1 + (2 * n + d1) % (2 * d1),
            0 <= (2 * n + d1) % (2 * d1) < 2 * d1,
            2 * n + d2 == 2 * d2 * q2 + (2 * n + d2) % (2 * d2),
            0 <= (2 * n + d2) % (2 * d2) < 2 * d2,
    ;
}

/// The sweep `k * s / SCALE`, rounded.
fn sweep_units(k: i64, s: i64) -> (r: i64)
    requires
        -CURV_MAX <= k <= CURV_MAX,
        0 <= s <= TCL_MAX,
    ensures
        r == div_round(k as int * s as int, SCALE as int),
        -SWEEP_MAX <= r <= SWEEP_MAX,
{
    proof {
        assert(-(SWEEP_MAX as int) * SCALE <= k as int * s as int <= SWEEP_MAX as int * SCALE
            && -DIV_ARG_MAX <= k as int * s as int <= DIV_ARG_MAX) by (nonlinear_arith)
            requires
                -CURV_MAX <= k as int <= CURV_MAX,
                0 <= s as int <= TCL_MAX,
        ;
        lemma_div_round_ordered(-(SWEEP_MAX as int) * SCALE, k as int * s as int, SCALE as int);
        lemma_div_round_ordered(k as int * s as int, SWEEP_MAX as int * SCALE, SCALE as int);
        lemma_div_round_exact(SWEEP_MAX as int, SCALE as int);
        lemma_div_round_exact(-(SWEEP_MAX as int), SCALE as int);
    }
    div_round_i128((k as i128) * (s as i128), SCALE as i128) as i64
}

impl Tangential {
    /// The direction from an arc's center to the point where the tangent
    /// has this direction: a quarter turn toward the curve's outside.
    pub fn to_central(&self, k: Curvature) -> (r: Central)
        requires
            -TANGENT_MAX <= self.0 <= TANGENT_MAX,
        ensures
            r.0 == self.0 + central_gap(k.0 as int),
            -TANGENT_MAX - HALF_PI_UNITS <= r.0 <= TANGENT_MAX + HALF_PI_UNITS,
    {
        if k.0 > 0 {
            Central(self.0 + HALF_PI_UNITS)
        } else {
            Central(self.0 - HALF_PI_UNITS)
        }
    }
}

/// Largest tangent-direction magnitude that can arise: the input bound
/// plus the whole sweep budget.
pub const TANGENT_MAX: i64 = 2_600_000_000_000_000_000;

/// Largest tangent direction accepted as an input.
pub const TANGENT_INPUT_MAX: i64 = 1_000_000_000_000_000_000;

/// The quarter-turn offset from a tangent direction to the central angle
/// of the point of tangency: positive for a right curve, negative
/// otherwise.
pub open spec fn central_gap(k: int) -> int {
    if k > 0 {
        HALF_PI_UNITS as int
    } else {
        -HALF_PI_UNITS as int
    }
}

/// The ratio `s / tcl` of arc length to total length, scaled to
/// `[0, SCALE]`.
pub open spec fn ratio_of(s: int, tcl: int) -> int {
    div_round(s * SCALE, tcl)
}

/// The share of the whole curvature change spent after a share `x` of
/// the curve, both scaled to `[0, SCALE]`.
pub open spec fn ease_of(d: Diminish, x: int) -> int {
    match d {
        Diminish::Linear => x,
        Diminish::Sine => div_round(
            sine_scaled(div_round((x - HALF_SCALE) * PI_UNITS, SCALE as int)),
            2,
        ) + HALF_SCALE,
    }
}

/// A curvature of magnitude below `CURV_MIN` rounded to straight; any
/// other value kept.
pub open spec fn snap_curvature(k: int) -> int {
    if -CURV_MIN < k < CURV_MIN {
        0
    } else {
        k
    }
}

/// The curvature at arc length `s` along a transition of length `tcl`
/// from curvature `k0` to `k1`, under diminish law `d`: exactly `k0` at
/// the start, exactly `k1` at the end, and in between `k0` plus the eased
/// share of the change, rounded and snapped.
#[verifier::opaque]
pub open spec fn curvature_of(d: Diminish, tcl: int, s: int, k0: int, k1: int) -> int {
    if s <= 0 {
        k0
    } else if s >= tcl {
        k1
    } else {
        snap_curvature(k0 + div_round((k1 - k0) * ease_of(d, ratio_of(s, tcl)), SCALE as int))
    }
}

impl Diminish {
    /// The curvature at arc length `s` of the transition from `k0` to
    /// `k1` over total length `tcl`, under this diminish law.
    pub fn k(&self, tcl: Subtension, s: Subtension, k0: Curvature, k1: Curvature) -> (r: Curvature)
        requires
            tcl.wf(),
            tcl.0 > 0,
            s.wf(),
            s.0 <= tcl.0,
            k0.wf(),
            k1.wf(),
        ensures
            r.0 == curvature_of(*self, tcl.0 as int, s.0 as int, k0.0 as int, k1.0 as int),
            r.wf(),
            k0.0 <= k1.0 ==> k0.0 <= r.0 <= k1.0,
            k1.0 <= k0.0 ==> k1.0 <= r.0 <= k0.0,
    {
        proof {
            reveal(curvature_of);
        }
        if s.0 <= 0 {
            return k0;
        }
        if s.0 >= tcl.0 {
            return k1;
        }
        let x: i64 = ratio_units(s.0, tcl.0);
        let y: i64 = match self {
            Diminish::Linear => x,
            Diminish::Sine => {
                proof {
                    assert(-DIV_ARG_MAX <= (x as int - HALF_SCALE) * PI_UNITS <= DIV_ARG_MAX
                        && -(HALF_PI_UNITS as int) - 1 <= div_round(
                        (x as int - HALF_SCALE) * PI_UNITS,
                        SCALE as int,
                    ) <= HALF_PI_UNITS + 1) by {
                        assert(-(HALF_SCALE as int) * PI_UNITS <= (x as int - HALF_SCALE)
                            * PI_UNITS <= HALF_SCALE as int * PI_UNITS) by (nonlinear_arith)
                            requires
                                0 <= x as int <= SCALE,
                        ;
                        lemma_div_round_le(
                            (x as int - HALF_SCALE) * PI_UNITS,
                            HALF_SCALE as int * PI_UNITS,
                            SCALE as int,
                        );
                    }
                }
                let arg: i64 = div_round_i128(
                    ((x as i128) - (HALF_SCALE as i128)) * (PI_UNITS as i128),
                    SCALE as i128,
                ) as i64;
                let sv: i64 = sine_units(arg);
                let half: i64 = div_round_i128(sv as i128, 2) as i64;
                proof {
                    lemma_div_round_le(sv as int, SCALE as int, 2);
                }
                half + HALF_SCALE
            },
        };
        proof {
            lemma_ease_in_range(*self, x as int);
        }
        let kd: i64 = k1.0 - k0.0;
        proof {
            assert(-DIV_ARG_MAX <= kd as int * y as int <= DIV_ARG_MAX) by (nonlinear_arith)
                requires
                    -2 * CURV_MAX <= kd as int <= 2 * CURV_MAX,
                    0 <= y as int <= SCALE,
            ;
            lemma_interp_between(kd as int, y as int);
        }
        let shift: i64 = div_round_i128((kd as i128) * (y as i128), SCALE as i128) as i64;
        let raw: i64 = k0.0 + shift;
        proof {
            lemma_snap_between(k0.0 as int, k1.0 as int, raw as int);
        }
        if -CURV_MIN < raw && raw < CURV_MIN {
            Curvature(0)
        } else {
            Curvature(raw)
        }
    }
}

/// The scaled ratio `s * SCALE / tcl`, rounded; lands in `[0, SCALE]`
/// when `0 <= s <= tcl`.
fn ratio_units(s: i64, tcl: i64) -> (r: i64)
    requires
        0 < tcl <= TCL_MAX,
        0 <= s <= tcl,
    ensures
        r == ratio_of(s as int, tcl as int),
        0 <= r <= SCALE,
{
    proof {
        assert(0 <= s as int * SCALE <= tcl as int * SCALE <= DIV_ARG_MAX) by (nonlinear_arith)
            requires
                0 <= s as int <= tcl as int,
                0 < tcl as int <= TCL_MAX,
        ;
        lemma_div_round_ordered(0, s as int * SCALE, tcl as int);
        lemma_div_round_ordered(s as int * SCALE, tcl as int * SCALE, tcl as int);
        lemma_div_round_exact(0, tcl as int);
        lemma_div_round_exact(SCALE as int, tcl as int);
        assert(s as int * SCALE == SCALE as int * s as int && tcl as int * SCALE == SCALE as int
            * tcl as int && 0 * tcl as int == 0) by (nonlinear_arith);
    }
    div_round_i128((s as i128) * (SCALE as i128), tcl as i128) as i64
}

/// The eased share of any ratio in `[0, SCALE]` is itself in
/// `[0, SCALE]`.
pub proof fn lemma_ease_in_range(d: Diminish, x: int)
    requires
        0 <= x <= SCALE,
    ensures
        0 <= ease_of(d, x) <= SCALE,
{
    match d {
        Diminish::Linear => {
        },
        Diminish::Sine => {
            let arg = div_round((x - HALF_SCALE) * PI_UNITS, SCALE as int);
            let sv = sine_scaled(arg);
            lemma_div_round_le(sv, SCALE as int, 2);
        },
    }
}

/// For `0 <= y <= SCALE`, the rounded share `c * y / SCALE` lies between
/// `0` and `c`.
pub proof fn lemma_interp_between(c: int, y: int)
    requires
        0 <= y <= SCALE,
    ensures
        c >= 0 ==> 0 <= div_round(c * y, SCALE as int) <= c,
        c <= 0 ==> c <= div_round(c * y, SCALE as int) <= 0,
{
    lemma_div_round_exact(0, SCALE as int);
    lemma_div_round_exact(c, SCALE as int);
    if c >= 0 {
        assert(0 <= c * y <= c * SCALE) by (nonlinear_arith)
            requires
                c >= 0,
                0 <= y <= SCALE,
        ;
        lemma_div_round_ordered(0 * SCALE, c * y, SCALE as int);
        lemma_div_round_ordered(c * y, c * SCALE, SCALE as int);
        assert(0 * SCALE == 0) by (nonlinear_arith);
    } else {
        assert(c * SCALE <= c * y <= 0) by (nonlinear_arith)
            requires
                c <= 0,
                0 <= y <= SCALE,
        ;
        lemma_div_round_ordered(c * SCALE, c * y, SCALE as int);
        lemma_div_round_ordered(c * y, 0 * SCALE, SCALE as int);
        assert(0 * SCALE == 0) by (nonlinear_arith);
    }
}

/// Snapping a value that lies between two well-formed curvatures keeps it
/// between them and well-formed.
pub proof fn lemma_snap_between(k0: int, k1: int, raw: int)
    requires
        k0 == 0 || CURV_MIN <= k0 <= CURV_MAX || -CURV_MAX <= k0 <= -CURV_MIN,
        k1 == 0 || CURV_MIN <= k1 <= CURV_MAX || -CURV_MAX <= k1 <= -CURV_MIN,
        k0 <= k1 ==> k0 <= raw <= k1,
        k1 <= k0 ==> k1 <= raw <= k0,
    ensures
        snap_curvature(raw) == 0 || CURV_MIN <= snap_curvature(raw) <= CURV_MAX || -CURV_MAX
            <= snap_curvature(raw) <= -CURV_MIN,
        k0 <= k1 ==> k0 <= snap_curvature(raw) <= k1,
        k1 <= k0 ==> k1 <= snap_curvature(raw) <= k0,
{
}

/// The ratio of a prefix of the curve to its whole length lies in
/// `[0, SCALE]`.
pub proof fn lemma_ratio_range(s: int, tcl: int)
    requires
        0 < tcl,
        0 <= s <= tcl,
    ensures
        0 <= ratio_of(s, tcl) <= SCALE,
{
    lemma_div_round_ordered(0, s * SCALE, tcl);
    lemma_div_round_ordered(s * SCALE, tcl * SCALE, tcl);
    lemma_div_round_exact(0, tcl);
    lemma_div_round_exact(SCALE as int, tcl);
    assert(0 <= s * SCALE <= tcl * SCALE && s * SCALE == SCALE as int * s && tcl * SCALE
        == SCALE as int * tcl && 0 * tcl == 0) by (nonlinear_arith)
        requires
            0 <= s <= tcl,
    ;
}

/// Between the two ends, the linear law gives exactly the rounded affine
/// interpolation from `k0` to `k1` in the ratio travelled.
pub proof fn lemma_linear_profile(tcl: int, s: int, k0: int, k1: int)
    requires
        0 < s < tcl,
    ensures
        curvature_of(Diminish::Linear, tcl, s, k0, k1) == snap_curvature(
            k0 + div_round((k1 - k0) * ratio_of(s, tcl), SCALE as int),
        ),
{
    reveal(curvature_of);
}

/// The profile never leaves the band between its two end curvatures,
/// and always returns a well-formed curvature.
pub proof fn lemma_profile_between(d: Diminish, tcl: int, s: int, k0: Curvature, k1: Curvature)
    requires
        0 < tcl,
        0 <= s <= tcl,
        k0.wf(),
        k1.wf(),
    ensures
        k0.0 <= k1.0 ==> k0.0 <= curvature_of(d, tcl, s, k0.0 as int, k1.0 as int) <= k1.0,
        k1.0 <= k0.0 ==> k1.0 <= curvature_of(d, tcl, s, k0.0 as int, k1.0 as int) <= k0.0,
        (Curvature { 0: curvature_of(d, tcl, s, k0.0 as int, k1.0 as int) as i64 }).wf(),
{
    reveal(curvature_of);
    if 0 < s < tcl {
        lemma_ratio_range(s, tcl);
        lemma_ease_in_range(d, ratio_of(s, tcl));
        lemma_interp_between(k1.0 - k0.0, ease_of(d, ratio_of(s, tcl)));
        lemma_snap_between(
            k0.0 as int,
            k1.0 as int,
            k0.0 + div_round((k1.0 - k0.0) * ease_of(d, ratio_of(s, tcl)), SCALE as int),
        );
    }
}

/// The eased share mirrors across the midpoint of the curve: spending
/// ratio `x` from one end leaves exactly the share that ratio
/// `SCALE - x` spends from the other.  This holds for both diminish
/// laws and is exact, with no rounding slack.
pub proof fn lemma_ease_mirror(d: Diminish, x: int)
    requires
        0 <= x <= SCALE,
    ensures
        ease_of(d, SCALE - x) == SCALE - ease_of(d, x),
{
    match d {
        Diminish::Linear => {
        },
        Diminish::Sine => {
            let a1 = div_round((x - HALF_SCALE) * PI_UNITS, SCALE as int);
            let a2 = div_round((SCALE - x - HALF_SCALE) * PI_UNITS, SCALE as int);
            assert((SCALE - x - HALF_SCALE) * PI_UNITS == -((x - HALF_SCALE) * PI_UNITS))
                by (nonlinear_arith);
            lemma_div_round_odd((x - HALF_SCALE) * PI_UNITS, SCALE as int);
            assert(a2 == -a1);
            lemma_sine_scaled_odd(a1);
            lemma_div_round_odd(sine_scaled(a1), 2);
        },
    }
}

/// At the exact middle of the curve the eased share is exactly one
/// half, under either law.
pub proof fn lemma_ease_middle(d: Diminish)
    ensures
        ease_of(d, HALF_SCALE as int) == HALF_SCALE,
{
    match d {
        Diminish::Linear => {
        },
        Diminish::Sine => {
            assert((HALF_SCALE as int - HALF_SCALE) * PI_UNITS == 0 * (SCALE as int))
                by (nonlinear_arith);
            lemma_div_round_exact(0, SCALE as int);
            assert(sine_scaled(0) == 0) by {
                lemma_sine_scaled_odd(0);
            }
            assert(0int == 0 * 2) by (nonlinear_arith);
            lemma_div_round_exact(0, 2);
        },
    }
}

/// At the two ends of the curve the profile returns the end curvatures
/// exactly.
pub proof fn lemma_profile_endpoints(d: Diminish, tcl: int, k0: int, k1: int)
    requires
        tcl > 0,
    ensures
        curvature_of(d, tcl, 0, k0, k1) == k0,
        curvature_of(d, tcl, tcl, k0, k1) == k1,
{
    reveal(curvature_of);
}

} // verus!
