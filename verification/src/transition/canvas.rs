//! Plane geometry: points, strokes, and the construction of one stroke
//! from a curvature, a length and a starting pose.
//!
//! A stroke is one drawn piece of the transition curve: a straight line
//! when the curvature is zero, else a circular arc.  Every stroke
//! carries both endpoints, both tangent directions, and (for an arc) the
//! center, the signed radius and both central angles, so a consumer can
//! derive any of them independently.

use crate::fixed::{
    div_round, div_round_i128, lemma_div_round_exact, lemma_div_round_le, lemma_div_round_odd,
    lemma_div_round_ordered, DIV_ARG_MAX, SCALE, SCALE_SQ,
};
use crate::transition::curve::{
    central_gap, recip_scaled, Central, Curvature, Radius, Subtension, Tangential, CURV_MAX,
    RADIUS_MAX, RADIUS_MIN, SWEEP_MAX, TANGENT_MAX, TCL_MAX,
};
use crate::trig::{cosine_scaled, cosine_units, sine_scaled, sine_units, ANGLE_MAX, HALF_PI_UNITS, PI_UNITS};
use vstd::prelude::*;

verus! {

/// Largest coordinate magnitude of a pose on the curve.
pub const COORD_MAX: i64 = 200_000_000_000_000_000;

/// Largest coordinate magnitude accepted for the starting point.
pub const COORD_INPUT_MAX: i64 = 100_000_000_000_000_000;

/// A plane point `(x, y)`, in fixed-point meters.
#[derive(Debug, Clone, Copy, PartialEq, Eq, Structural)]
pub struct Point(pub i64, pub i64);

/// The x displacement of a polar step: `dist * cos(angle)`, rounded.
pub open spec fn x_step(dist: int, angle: int) -> int {
    div_round(dist * cosine_scaled(angle), SCALE as int)
}

/// The y displacement of a polar step: `dist * sin(angle)`, rounded.
pub open spec fn y_step(dist: int, angle: int) -> int {
    div_round(dist * sine_scaled(angle), SCALE as int)
}

/// The chord of an arc of absolute radius `ra` and sweep `delta`:
/// `2 ra sin(delta / 2)` in magnitude, no longer than the arc itself.
pub open spec fn chord_of(ra: int, delta: int, len: int) -> int {
    let c = div_round(2 * ra * sine_scaled(div_round(delta, 2)), SCALE as int);
    let ca = if c >= 0 {
        c
    } else {
        -c
    };
    if ca > len {
        len
    } else {
        ca
    }
}

/// A polar step stays within the distance stepped.
proof fn lemma_step_bound(dist: int, angle: int)
    requires
        0 <= dist,
    ensures
        -dist <= x_step(dist, angle) <= dist,
        -dist <= y_step(dist, angle) <= dist,
{
    crate::trig::lemma_sine_scaled_odd(angle);
    assert(-(SCALE as int) <= cosine_scaled(angle) <= SCALE && -(SCALE as int) <= sine_scaled(
        angle,
    ) <= SCALE);
    lemma_step_bound_one(dist, cosine_scaled(angle));
    lemma_step_bound_one(dist, sine_scaled(angle));
}

/// `dist * f / SCALE` rounded stays within `dist` when `|f| <= SCALE`.
proof fn lemma_step_bound_one(dist: int, f: int)
    requires
        0 <= dist,
        -(SCALE as int) <= f <= SCALE,
    ensures
        -dist <= div_round(dist * f, SCALE as int) <= dist,
{
    assert(-dist * SCALE <= dist * f <= dist * SCALE) by (nonlinear_arith)
        requires
            0 <= dist,
            -(SCALE as int) <= f <= SCALE,
    ;
    lemma_div_round_ordered(-dist * SCALE, dist * f, SCALE as int);
    lemma_div_round_ordered(dist * f, dist * SCALE, SCALE as int);
    lemma_div_round_exact(dist, SCALE as int);
    lemma_div_round_exact(-dist, SCALE as int);
    assert(-dist * SCALE == (-dist) * SCALE) by (nonlinear_arith);
}

/// The x displacement of a polar step, executed.
fn step_x(dist: i64, angle: i64) -> (r: i64)
    requires
        0 <= dist <= RADIUS_MAX,
        -ANGLE_MAX <= angle <= ANGLE_MAX,
    ensures
        r == x_step(dist as int, angle as int),
        -dist <= r <= dist,
{
    let c: i64 = cosine_units(angle);
    proof {
        lemma_step_bound(dist as int, angle as int);
        assert(-DIV_ARG_MAX <= dist as int * c <= DIV_ARG_MAX) by (nonlinear_arith)
            requires
                0 <= dist as int <= RADIUS_MAX,
                -(SCALE as int) <= c as int <= SCALE,
        ;
    }
    div_round_i128((dist as i128) * (c as i128), SCALE as i128) as i64
}

/// The y displacement of a polar step, executed.
fn step_y(dist: i64, angle: i64) -> (r: i64)
    requires
        0 <= dist <= RADIUS_MAX,
        -ANGLE_MAX <= angle <= ANGLE_MAX,
    ensures
        r == y_step(dist as int, angle as int),
        -dist <= r <= dist,
{
    let s: i64 = sine_units(angle);
    proof {
        lemma_step_bound(dist as int, angle as int);
        assert(-DIV_ARG_MAX <= dist as int * s <= DIV_ARG_MAX) by (nonlinear_arith)
            requires
                0 <= dist as int <= RADIUS_MAX,
                -(SCALE as int) <= s as int <= SCALE,
        ;
    }
    div_round_i128((dist as i128) * (s as i128), SCALE as i128) as i64
}

/// The geometry an arc stroke carries beyond its endpoints: center,
/// signed radius, and the central angles of its two ends.
#[derive(Debug, Clone, Copy, PartialEq, Eq, Structural)]
pub struct ArcGeom {
    /// The arc's center.
    pub center: Point,
    /// The signed radius: the reciprocal of the stroke's curvature.
    pub radius: Radius,
    /// Central angle of the start point.
    pub a0: Central,
    /// Central angle of the end point.
    pub a1: Central,
}

/// One drawn piece of the curve: a straight line or a circular arc,
/// with its full pose at both ends.
#[derive(Debug, Clone, Copy, PartialEq, Eq, Structural)]
pub struct Stroke {
    /// The stroke's constant curvature.
    pub k: Curvature,
    /// The stroke's arc length.
    pub len: Subtension,
    /// Start point.
    pub p0: Point,
    /// Tangent direction at the start.
    pub t0: Tangential,
    /// End point.
    pub p1: Point,
    /// Tangent direction at the end.
    pub t1: Tangential,
    /// The arc geometry, absent for a straight stroke.
    pub arc: Option<ArcGeom>,
}

/// How every field of a stroke follows from its curvature, length and
/// starting pose.  A straight stroke keeps its tangent and steps along
/// it; an arc stroke turns clockwise for positive (rightward) curvature,
/// its center a quarter turn from the tangent on the curve's inside, and
/// reaches its end point along the chord.
#[verifier::opaque]
pub open spec fn stroke_wf(s: Stroke) -> bool {
    let delta = div_round(s.k.0 as int * s.len.0, SCALE as int);
    &&& s.k.wf()
    &&& s.len.wf()
    &&& s.t1.0 == s.t0.0 - delta
    &&& if s.k.0 == 0 {
        &&& s.arc is None
        &&& s.p1.0 == s.p0.0 + x_step(s.len.0 as int, s.t0.0 as int)
        &&& s.p1.1 == s.p0.1 + y_step(s.len.0 as int, s.t0.0 as int)
    } else {
        match s.arc {
            Some(g) => {
                let ra = if g.radius.0 >= 0 {
                    g.radius.0 as int
                } else {
                    -g.radius.0 as int
                };
                let chord = chord_of(ra, delta, s.len.0 as int);
                let mid = s.t0.0 - div_round(delta, 2);
                &&& g.radius.0 == recip_scaled(s.k.0 as int)
                &&& g.a0.0 == s.t0.0 + central_gap(s.k.0 as int)
                &&& g.a1.0 == g.a0.0 - delta
                &&& g.center.0 == s.p0.0 + x_step(ra, g.a0.0 + PI_UNITS)
                &&& g.center.1 == s.p0.1 + y_step(ra, g.a0.0 + PI_UNITS)
                &&& s.p1.0 == s.p0.0 + x_step(chord, mid)
                &&& s.p1.1 == s.p0.1 + y_step(chord, mid)
            },
            None => false,
        }
    }
}

impl Stroke {
    /// Builds the stroke of constant curvature `k` and length `len`
    /// starting at point `p0` with tangent direction `t0`.
    pub fn new(k: Curvature, len: Subtension, p0: Point, t0: Tangential) -> (r: Stroke)
        requires
            k.wf(),
            len.wf(),
            -TANGENT_MAX <= t0.0 <= TANGENT_MAX,
            -COORD_MAX <= p0.0 <= COORD_MAX,
            -COORD_MAX <= p0.1 <= COORD_MAX,
        ensures
            r.k == k,
            r.len == len,
            r.p0 == p0,
            r.t0 == t0,
            stroke_wf(r),
            r.t1.0 == t0.0 - div_round(k.0 as int * len.0, SCALE as int),
            -(len.0 as int) <= r.p1.0 - p0.0 <= len.0,
            -(len.0 as int) <= r.p1.1 - p0.1 <= len.0,
    {
        proof {
            reveal(stroke_wf);
            assert(-DIV_ARG_MAX <= k.0 as int * len.0 <= DIV_ARG_MAX && -(CURV_MAX as int)
                * TCL_MAX <= k.0 as int * len.0 <= CURV_MAX as int * TCL_MAX) by (nonlinear_arith)
                requires
                    -CURV_MAX <= k.0 as int <= CURV_MAX,
                    0 <= len.0 as int <= TCL_MAX,
            ;
            lemma_div_round_ordered(-(CURV_MAX as int) * TCL_MAX, k.0 as int * len.0,
                SCALE as int);
            lemma_div_round_ordered(k.0 as int * len.0, CURV_MAX as int * TCL_MAX, SCALE as int);
            lemma_div_round_exact(SWEEP_MAX as int, SCALE as int);
            lemma_div_round_exact(-(SWEEP_MAX as int), SCALE as int);
            assert(CURV_MAX as int * TCL_MAX == SWEEP_MAX as int * SCALE && -(CURV_MAX as int)
                * TCL_MAX == (-(SWEEP_MAX as int)) * SCALE) by (nonlinear_arith);
        }
        let delta: i64 = div_round_i128((k.0 as i128) * (len.0 as i128), SCALE as i128) as i64;
        if k.0 == 0 {
            proof {
                assert(k.0 as int * len.0 == 0) by (nonlinear_arith)
                    requires
                        k.0 as int == 0,
                ;
                assert(0 * (SCALE as int) == 0) by (nonlinear_arith);
                lemma_div_round_exact(0, SCALE as int);
            }
            let p1 = Point(p0.0 + step_x(len.0, t0.0), p0.1 + step_y(len.0, t0.0));
            Stroke { k, len, p0, t0, p1, t1: t0, arc: None }
        } else {
            let rad_opt: Option<Radius> = k.r();
            let rad: Radius = match rad_opt {
                Some(x) => x,
                None => Radius(0),
            };
            let ra: i64 = if rad.0 >= 0 {
                rad.0
            } else {
                -rad.0
            };
            let gap: i64 = if k.0 > 0 {
                HALF_PI_UNITS
            } else {
                -HALF_PI_UNITS
            };
            let a0: i64 = t0.0 + gap;
            let a1: i64 = a0 - delta;
            let t1: i64 = t0.0 - delta;
            let center = Point(p0.0 + step_x(ra, a0 + PI_UNITS), p0.1 + step_y(ra, a0 + PI_UNITS));
            let half: i64 = div_round_i128(delta as i128, 2) as i64;
            proof {
                lemma_div_round_le(delta as int, SWEEP_MAX as int, 2);
            }
            let sh: i64 = sine_units(half);
            proof {
                assert(-DIV_ARG_MAX <= 2 * (ra as int) * sh <= DIV_ARG_MAX) by (nonlinear_arith)
                    requires
                        0 <= ra as int <= RADIUS_MAX,
                        -(SCALE as int) <= sh as int <= SCALE,
                ;
            }
            let cr: i128 = div_round_i128(2 * (ra as i128) * (sh as i128), SCALE as i128);
            let ca: i128 = if cr >= 0 {
                cr
            } else {
                -cr
            };
            let chord: i64 = if ca > len.0 as i128 {
                len.0
            } else {
                ca as i64
            };
            let mid: i64 = t0.0 - half;
            let p1 = Point(p0.0 + step_x(chord, mid), p0.1 + step_y(chord, mid));
            Stroke {
                k,
                len,
                p0,
                t0,
                p1,
                t1: Tangential(t1),
                arc: Some(ArcGeom { center, radius: rad, a0: Central(a0), a1: Central(a1) }),
            }
        }
    }

    /// Start point.
    pub fn p0(&self) -> (r: Point)
        ensures
            r == self.p0,
    {
        self.p0
    }

    /// End point.
    pub fn p1(&self) -> (r: Point)
        ensures
            r == self.p1,
    {
        self.p1
    }

    /// Tangent direction at the end.
    pub fn t1(&self) -> (r: Tangential)
        ensures
            r == self.t1,
    {
        self.t1
    }

    /// The stroke's signed radius; `None` for a straight stroke.
    pub fn r(&self) -> (r: Option<Radius>)
        ensures
            r == match self.arc {
                Some(g) => Some(g.radius),
                None => None::<Radius>,
            },
    {
        match &self.arc {
            Some(g) => Some(g.radius),
            None => None,
        }
    }

    /// The arc's center; `None` for a straight stroke.
    pub fn center(&self) -> (r: Option<Point>)
        ensures
            r == match self.arc {
                Some(g) => Some(g.center),
                None => None::<Point>,
            },
    {
        match &self.arc {
            Some(g) => Some(g.center),
            None => None,
        }
    }

    /// Central angle of the start point.
    pub fn a0(&self) -> (r: Central)
        requires
            self.arc is Some,
        ensures
            r == match self.arc {
                Some(g) => g.a0,
                None => Central(0),
            },
    {
        match &self.arc {
            Some(g) => g.a0,
            None => Central(0),
        }
    }

    /// Central angle of the end point.
    pub fn a1(&self) -> (r: Central)
        requires
            self.arc is Some,
        ensures
            r == match self.arc {
                Some(g) => g.a1,
                None => Central(0),
            },
    {
        match &self.arc {
            Some(g) => g.a1,
            None => Central(0),
        }
    }
}

/// The transition curve as drawn: its strokes in order.
#[derive(Debug)]
pub struct Spiral(pub Vec<Stroke>);

impl Spiral {
    /// How many strokes the curve is drawn with.
    pub fn len(&self) -> (r: usize)
        ensures
            r == self.0.len(),
    {
        self.0.len()
    }

    /// The stroke at position `i`.
    pub fn get(&self, i: usize) -> (r: &Stroke)
        requires
            i < self.0.len(),
        ensures
            *r == self.0[i as int],
    {
        &self.0[i]
    }
}

} // verus!
