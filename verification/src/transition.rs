//! The transition (easement) curve.
//!
//! `plot` splits the curve's stationing stretch into whole-meter
//! intervals, evaluates the curvature profile once at each interval's
//! middle, and folds the arc stepper over the intervals, threading the
//! pose from each stroke's end into the next stroke's start.

pub mod canvas;
pub mod curve;
pub mod distance;
pub mod param;

use crate::fixed::{
    div_round, lemma_div_round_exact, lemma_div_round_le, lemma_div_round_ordered, SCALE,
};
use crate::transition::canvas::{
    stroke_wf, Point, Spiral, Stroke, COORD_INPUT_MAX, COORD_MAX,
};
use crate::transition::curve::{
    curvature_of, Curvature, Diminish, Subtension, Tangential, CURV_MAX, TANGENT_INPUT_MAX,
    TANGENT_MAX, TCL_MAX,
};
use crate::transition::distance::{
    boundary, interval_count, lemma_boundaries, lemma_ceil_mark, lemma_floor_mark, Distance,
    Interval, Ruler,
};
use crate::transition::param::{Param, ParamError};
use vstd::prelude::*;

verus! {

/// What `plot` promises of the spiral it returns: one stroke per
/// stationing interval, each stroke's curvature read from the profile at
/// the interval's middle, each stroke internally consistent, and each
/// stroke starting exactly where (and headed exactly as) the previous
/// one ended.
pub open spec fn plot_post(p: Param, sp: Spiral) -> bool {
    let l0 = p.l0.0 as int;
    let tcl = p.tcl.0 as int;
    let n = interval_count(l0, tcl);
    &&& sp.0.len() == n
    &&& forall|i: int| 0 <= i < n ==> stroke_wf(#[trigger] sp.0[i])
    &&& forall|i: int|
        0 <= i < n ==> (#[trigger] sp.0[i]).len.0 == boundary(l0, tcl, i + 1) - boundary(
            l0,
            tcl,
            i,
        )
    &&& forall|i: int|
        0 <= i < n ==> (#[trigger] sp.0[i]).k.0 == curvature_of(
            p.diminish,
            tcl,
            ((boundary(l0, tcl, i) - l0) + (boundary(l0, tcl, i + 1) - l0)) / 2,
            p.k0.0 as int,
            p.k1.0 as int,
        )
    &&& n > 0 ==> sp.0[0].p0 == p.p0 && sp.0[0].t0 == p.t0
    &&& forall|i: int|
        0 <= i < n - 1 ==> (#[trigger] sp.0[i + 1]).p0 == sp.0[i].p1 && sp.0[i + 1].t0 == sp.0[
            i
        ].t1
}

/// The machine limits on a parameter set: curvatures, stationing, pose
/// and length all within the fixed-point ranges.  The length bound
/// admits non-positive lengths; those are rejected by `plot` itself.
pub open spec fn param_limits(p: Param) -> bool {
    &&& p.k0.wf()
    &&& p.k1.wf()
    &&& p.l0.wf()
    &&& p.tcl.0 <= TCL_MAX
    &&& -COORD_INPUT_MAX <= p.p0.0 <= COORD_INPUT_MAX
    &&& -COORD_INPUT_MAX <= p.p0.1 <= COORD_INPUT_MAX
    &&& -TANGENT_INPUT_MAX <= p.t0.0 <= TANGENT_INPUT_MAX
}

/// Draws the transition curve described by `param`: exactly one stroke
/// per whole-meter stationing interval.  A non-positive curve length is
/// rejected, and nothing else is.
#[verifier::rlimit(100)]
pub fn plot(param: &Param) -> (r: Result<Spiral, ParamError>)
    requires
        param_limits(*param),
    ensures
        r is Err <==> param.tcl.0 <= 0,
        r is Err ==> r->Err_0 == ParamError::NonPositiveLength,
        r is Ok ==> plot_post(*param, r->Ok_0),
{
    if param.tcl.0 <= 0 {
        return Err(ParamError::NonPositiveLength);
    }
    let ghost l0 = param.l0.0 as int;
    let ghost tcl = param.tcl.0 as int;
    proof {
        lemma_boundaries(l0, tcl);
        lemma_count_bound(l0, tcl);
    }
    let ruler = Ruler::new(param.l0, param.tcl);
    let intervals = ruler.intervals();
    let n: usize = intervals.len();
    let mut strokes: Vec<Stroke> = Vec::new();
    let mut p: Point = param.p0;
    let mut t: Tangential = param.t0;
    let mut i: usize = 0;
    while i < n
        invariant
            param_limits(*param),
            param.tcl.0 > 0,
            l0 == param.l0.0 as int,
            tcl == param.tcl.0 as int,
            n == interval_count(l0, tcl),
            n <= tcl / (SCALE as int) + 2,
            intervals.len() == n,
            forall|j: int|
                0 <= j < n ==> #[trigger] intervals[j].s0.0 == boundary(l0, tcl, j) - l0
                    && intervals[j].s1.0 == boundary(l0, tcl, j + 1) - l0,
            forall|j: int|
                0 <= j < n ==> 0 <= #[trigger] intervals[j].s0.0 && intervals[j].s0.0 < intervals[
                    j
                ].s1.0 && intervals[j].s1.0 <= param.tcl.0 && intervals[j].s1.0 - intervals[j].s0.0
                    <= SCALE,
            0 <= i <= n,
            strokes.len() == i,
            forall|j: int| 0 <= j < i ==> stroke_wf(#[trigger] strokes[j]),
            forall|j: int|
                0 <= j < i ==> (#[trigger] strokes[j]).len.0 == boundary(l0, tcl, j + 1) - boundary(
                    l0,
                    tcl,
                    j,
                ),
            forall|j: int|
                0 <= j < i ==> (#[trigger] strokes[j]).k.0 == curvature_of(
                    param.diminish,
                    tcl,
                    ((boundary(l0, tcl, j) - l0) + (boundary(l0, tcl, j + 1) - l0)) / 2,
                    param.k0.0 as int,
                    param.k1.0 as int,
                ),
            i > 0 ==> strokes[0].p0 == param.p0 && strokes[0].t0 == param.t0,
            forall|j: int|
                0 <= j < i - 1 ==> (#[trigger] strokes[j + 1]).p0 == strokes[j].p1 && strokes[j
                    + 1].t0 == strokes[j].t1,
            i > 0 ==> p == strokes[i - 1].p1 && t == strokes[i - 1].t1,
            i == 0 ==> p == param.p0 && t == param.t0,
            -COORD_INPUT_MAX - (boundary(l0, tcl, i as int) - l0) <= p.0 <= COORD_INPUT_MAX + (
            boundary(l0, tcl, i as int) - l0),
            -COORD_INPUT_MAX - (boundary(l0, tcl, i as int) - l0) <= p.1 <= COORD_INPUT_MAX + (
            boundary(l0, tcl, i as int) - l0),
            -TANGENT_INPUT_MAX - (i as int) * (CURV_MAX + 1) <= t.0 <= TANGENT_INPUT_MAX + (
            i as int) * (CURV_MAX + 1),
        decreases n - i,
    {
        let iv: Interval = intervals[i];
        let mid: Subtension = iv.s();
        let seg_len: Subtension = iv.len();
        let k: Curvature = param.diminish.k(param.tcl, mid, param.k0, param.k1);
        proof {
            lemma_boundaries(l0, tcl);
            lemma_pose_bounds(l0, tcl, i as int, n as int, p.0 as int, p.1 as int, t.0 as int);
        }
        let stroke: Stroke = Stroke::new(k, seg_len, p, t);
        proof {
            lemma_step_budget(k.0 as int, seg_len.0 as int, t.0 as int, stroke.t1.0 as int);
            assert(((i as int) + 1) * (CURV_MAX + 1) == (i as int) * (CURV_MAX + 1) + (CURV_MAX
                + 1)) by (nonlinear_arith);
        }
        p = stroke.p1;
        t = stroke.t1;
        strokes.push(stroke);
        i = i + 1;
    }
    Ok(Spiral(strokes))
}

/// The interval count never exceeds the whole meters of the length plus
/// the two outer pieces.
proof fn lemma_count_bound(l0: int, tcl: int)
    requires
        0 < tcl,
    ensures
        1 <= interval_count(l0, tcl) <= tcl / (SCALE as int) + 2,
{
    lemma_boundaries(l0, tcl);
    lemma_floor_mark(l0);
    lemma_ceil_mark(l0 + tcl);
    if crate::transition::distance::first_mark(l0) >= l0 + tcl {
        vstd::arithmetic::div_mod::lemma_div_pos_is_pos(tcl, SCALE as int);
    } else {
        let fm = crate::transition::distance::first_mark(l0);
        let lm = crate::transition::distance::last_mark(l0 + tcl);
        assert(lm - fm <= tcl - 1);
        vstd::arithmetic::div_mod::lemma_div_is_ordered(lm - fm, tcl - 1, SCALE as int);
        vstd::arithmetic::div_mod::lemma_div_is_ordered(tcl - 1, tcl, SCALE as int);
    }
}

/// Inside the loop, the running pose stays within the stroke builder's
/// input bounds.
proof fn lemma_pose_bounds(l0: int, tcl: int, i: int, n: int, px: int, py: int, t: int)
    requires
        0 < tcl <= TCL_MAX,
        n == interval_count(l0, tcl),
        n <= tcl / (SCALE as int) + 2,
        0 <= i < n,
        -COORD_INPUT_MAX - (boundary(l0, tcl, i) - l0) <= px <= COORD_INPUT_MAX + (boundary(
            l0,
            tcl,
            i,
        ) - l0),
        -COORD_INPUT_MAX - (boundary(l0, tcl, i) - l0) <= py <= COORD_INPUT_MAX + (boundary(
            l0,
            tcl,
            i,
        ) - l0),
        -TANGENT_INPUT_MAX - i * (CURV_MAX + 1) <= t <= TANGENT_INPUT_MAX + i * (CURV_MAX + 1),
    ensures
        -COORD_MAX <= px <= COORD_MAX,
        -COORD_MAX <= py <= COORD_MAX,
        -TANGENT_MAX <= t <= TANGENT_MAX,
{
    lemma_boundaries(l0, tcl);
    crate::transition::distance::lemma_boundary_between(l0, tcl, i);
    vstd::arithmetic::div_mod::lemma_div_is_ordered(tcl, TCL_MAX as int, SCALE as int);
    assert(i * (CURV_MAX + 1) <= (tcl / (SCALE as int) + 2) * (CURV_MAX + 1)) by (nonlinear_arith)
        requires
            0 <= i <= tcl / (SCALE as int) + 2,
    ;
    assert((tcl / (SCALE as int) + 2) * (CURV_MAX + 1) <= (TCL_MAX as int / (SCALE as int) + 2) * (
    CURV_MAX + 1)) by (nonlinear_arith)
        requires
            0 <= tcl / (SCALE as int) <= TCL_MAX as int / (SCALE as int),
    ;
    assert(TCL_MAX as int / (SCALE as int) == 10000);
    assert((10000 + 2) * (CURV_MAX as int + 1) <= 1_100_000_000_000_000_000) by (nonlinear_arith);
}

/// The sum of the first `n` stroke lengths of a spiral.
pub open spec fn length_sum(strokes: Seq<Stroke>, n: int) -> int
    decreases n,
{
    if n <= 0 {
        0
    } else {
        length_sum(strokes, n - 1) + strokes[n - 1].len.0
    }
}

/// The first `k` strokes of a plotted spiral reach exactly boundary `k`
/// of the stationing split.
proof fn lemma_length_prefix(p: Param, sp: Spiral, k: int)
    requires
        p.tcl.0 > 0,
        plot_post(p, sp),
        0 <= k <= sp.0.len(),
    ensures
        length_sum(sp.0@, k) == boundary(p.l0.0 as int, p.tcl.0 as int, k) - p.l0.0,
    decreases k,
{
    lemma_boundaries(p.l0.0 as int, p.tcl.0 as int);
    if k > 0 {
        lemma_length_prefix(p, sp, k - 1);
    }
}

/// The stroke lengths of a plotted spiral sum exactly to the curve's
/// total length: the stationing split loses and gains nothing.
pub proof fn lemma_spiral_length_sum(p: Param, sp: Spiral)
    requires
        p.tcl.0 > 0,
        plot_post(p, sp),
    ensures
        length_sum(sp.0@, sp.0.len() as int) == p.tcl.0,
{
    lemma_boundaries(p.l0.0 as int, p.tcl.0 as int);
    lemma_length_prefix(p, sp, sp.0.len() as int);
}

/// Consecutive strokes of a plotted spiral are pose-continuous: each
/// starts exactly at the previous stroke's end point, headed exactly the
/// previous stroke's end tangent.
pub proof fn lemma_spiral_pose_continuous(p: Param, sp: Spiral)
    requires
        p.tcl.0 > 0,
        plot_post(p, sp),
    ensures
        forall|i: int|
            0 <= i < sp.0.len() - 1 ==> (#[trigger] sp.0[i + 1]).p0 == sp.0[i].p1 && sp.0[i
                + 1].t0 == sp.0[i].t1,
{
}

/// Every inner stroke boundary of a plotted spiral falls on a
/// whole-meter stationing mark: only the curve's own two ends may sit
/// between marks.
pub proof fn lemma_spiral_marks(p: Param, sp: Spiral)
    requires
        p.tcl.0 > 0,
        plot_post(p, sp),
    ensures
        forall|i: int|
            0 < i < sp.0.len() ==> (p.l0.0 + #[trigger] length_sum(sp.0@, i)) % (SCALE as int)
                == 0,
{
    lemma_boundaries(p.l0.0 as int, p.tcl.0 as int);
    assert forall|i: int| 0 < i < sp.0.len() implies (p.l0.0 + #[trigger] length_sum(sp.0@, i)) % (
    SCALE as int) == 0 by {
        lemma_length_prefix(p, sp, i);
    }
}

/// With equal end curvatures the profile is constant, so every stroke of
/// the plotted spiral carries exactly that curvature.
pub proof fn lemma_spiral_constant_curvature(p: Param, sp: Spiral)
    requires
        p.tcl.0 > 0,
        p.k0.wf(),
        p.k0 == p.k1,
        plot_post(p, sp),
    ensures
        forall|i: int| 0 <= i < sp.0.len() ==> (#[trigger] sp.0[i]).k.0 == p.k0.0,
{
    reveal(curvature_of);
    assert forall|i: int| 0 <= i < sp.0.len() implies (#[trigger] sp.0[i]).k.0 == p.k0.0 by {
        let tcl = p.tcl.0 as int;
        let l0 = p.l0.0 as int;
        let s = ((boundary(l0, tcl, i) - l0) + (boundary(l0, tcl, i + 1) - l0)) / 2;
        if 0 < s < tcl {
            let y = crate::transition::curve::ease_of(
                p.diminish,
                crate::transition::curve::ratio_of(s, tcl),
            );
            assert((p.k1.0 - p.k0.0) as int * y == 0) by (nonlinear_arith)
                requires
                    p.k1.0 == p.k0.0,
            ;
            assert(0 * (SCALE as int) == 0) by (nonlinear_arith);
            lemma_div_round_exact(0, SCALE as int);
        }
    }
}

/// With both end curvatures zero every stroke of the plotted spiral is
/// straight, and the tangent direction never changes from the starting
/// one.
pub proof fn lemma_spiral_straight(p: Param, sp: Spiral)
    requires
        p.tcl.0 > 0,
        p.k0.0 == 0,
        p.k1.0 == 0,
        plot_post(p, sp),
    ensures
        forall|i: int|
            0 <= i < sp.0.len() ==> (#[trigger] sp.0[i]).k.0 == 0 && sp.0[i].arc is None && sp.0[
                i
            ].t0.0 == p.t0.0 && sp.0[i].t1.0 == p.t0.0,
{
    assert forall|i: int| 0 <= i < sp.0.len() implies (#[trigger] sp.0[i]).k.0 == 0 && sp.0[
        i
    ].arc is None && sp.0[i].t0.0 == p.t0.0 && sp.0[i].t1.0 == p.t0.0 by {
        lemma_straight_prefix(p, sp, i);
    }
}

/// Induction step for `lemma_spiral_straight`: each stroke keeps the
/// tangent it inherited.
proof fn lemma_straight_prefix(p: Param, sp: Spiral, i: int)
    requires
        p.tcl.0 > 0,
        p.k0.0 == 0,
        p.k1.0 == 0,
        plot_post(p, sp),
        0 <= i < sp.0.len(),
    ensures
        sp.0[i].k.0 == 0,
        sp.0[i].arc is None,
        sp.0[i].t0.0 == p.t0.0,
        sp.0[i].t1.0 == p.t0.0,
    decreases i,
{
    reveal(curvature_of);
    reveal(crate::transition::canvas::stroke_wf);
    let k0 = Curvature(0);
    assert(k0.wf());
    lemma_spiral_constant_curvature(p, sp);
    assert(sp.0[i].k.0 == 0);
    assert(stroke_wf(sp.0[i]));
    assert(sp.0[i].k.0 as int * sp.0[i].len.0 == 0) by (nonlinear_arith)
        requires
            sp.0[i].k.0 as int == 0,
    ;
    assert(0 * (SCALE as int) == 0) by (nonlinear_arith);
    lemma_div_round_exact(0, SCALE as int);
    if i == 0 {
    } else {
        lemma_straight_prefix(p, sp, i - 1);
        assert(sp.0[(i - 1) + 1].t0 == sp.0[i - 1].t1);
    }
}

/// Every stroke of a plotted spiral carries a curvature between the
/// two end curvatures, inclusive: the profile interpolates and never
/// overshoots.
pub proof fn lemma_spiral_curvature_band(p: Param, sp: Spiral)
    requires
        p.tcl.0 > 0,
        p.tcl.0 <= TCL_MAX,
        p.k0.wf(),
        p.k1.wf(),
        plot_post(p, sp),
    ensures
        forall|i: int|
            0 <= i < sp.0.len() ==> {
                let k = (#[trigger] sp.0[i]).k.0;
                &&& (p.k0.0 <= p.k1.0 ==> p.k0.0 <= k <= p.k1.0)
                &&& (p.k1.0 <= p.k0.0 ==> p.k1.0 <= k <= p.k0.0)
            },
{
    let l0 = p.l0.0 as int;
    let tcl = p.tcl.0 as int;
    lemma_boundaries(l0, tcl);
    assert forall|i: int| 0 <= i < sp.0.len() implies {
        let k = (#[trigger] sp.0[i]).k.0;
        &&& (p.k0.0 <= p.k1.0 ==> p.k0.0 <= k <= p.k1.0)
        &&& (p.k1.0 <= p.k0.0 ==> p.k1.0 <= k <= p.k0.0)
    } by {
        crate::transition::distance::lemma_boundary_between(l0, tcl, i);
        crate::transition::distance::lemma_boundary_between(l0, tcl, i + 1);
        let s = ((boundary(l0, tcl, i) - l0) + (boundary(l0, tcl, i + 1) - l0)) / 2;
        assert(0 <= s <= tcl) by {
            vstd::arithmetic::div_mod::lemma_div_is_ordered(
                0,
                (boundary(l0, tcl, i) - l0) + (boundary(l0, tcl, i + 1) - l0),
                2,
            );
            vstd::arithmetic::div_mod::lemma_div_is_ordered(
                (boundary(l0, tcl, i) - l0) + (boundary(l0, tcl, i + 1) - l0),
                2 * tcl,
                2,
            );
            assert(2 * tcl / 2 == tcl) by (nonlinear_arith);
            assert(0int / 2 == 0) by (nonlinear_arith);
        }
        crate::transition::curve::lemma_profile_between(p.diminish, tcl, s, p.k0, p.k1);
    }
}

/// Two strokes with the same curvature, length and starting pose that
/// both satisfy the stroke relation are the same stroke: the relation
/// determines the far end and the arc geometry.
proof fn lemma_stroke_unique(a: Stroke, b: Stroke)
    requires
        stroke_wf(a),
        stroke_wf(b),
        a.k == b.k,
        a.len == b.len,
        a.p0 == b.p0,
        a.t0 == b.t0,
    ensures
        a == b,
{
    reveal(crate::transition::canvas::stroke_wf);
    if a.k.0 == 0 {
        assert(a.p1 == b.p1);
        assert(a.t1 == b.t1);
        assert(a.arc == b.arc);
    } else {
        match (a.arc, b.arc) {
            (Some(ga), Some(gb)) => {
                assert(ga.radius == gb.radius);
                assert(ga.a0 == gb.a0);
                assert(ga.a1 == gb.a1);
                assert(ga.center == gb.center);
                assert(a.p1 == b.p1);
                assert(a.t1 == b.t1);
            },
            _ => {
                assert(false);
            },
        }
    }
}

/// The plotted spiral is unique: any two spirals that satisfy the plot
/// relation for the same parameters are the same, stroke for stroke.
pub proof fn lemma_plot_unique(p: Param, a: Spiral, b: Spiral)
    requires
        p.tcl.0 > 0,
        plot_post(p, a),
        plot_post(p, b),
    ensures
        a.0@ == b.0@,
{
    let n = interval_count(p.l0.0 as int, p.tcl.0 as int);
    assert forall|i: int| 0 <= i < n implies a.0[i] == b.0[i] by {
        lemma_plot_unique_prefix(p, a, b, i);
    }
    assert(a.0@ =~= b.0@);
}

/// Induction step for `lemma_plot_unique`: equal poses in, equal
/// strokes out.
proof fn lemma_plot_unique_prefix(p: Param, a: Spiral, b: Spiral, i: int)
    requires
        p.tcl.0 > 0,
        plot_post(p, a),
        plot_post(p, b),
        0 <= i < interval_count(p.l0.0 as int, p.tcl.0 as int),
    ensures
        a.0[i] == b.0[i],
    decreases i,
{
    if i == 0 {
        assert(a.0[0].p0 == b.0[0].p0);
        assert(a.0[0].t0 == b.0[0].t0);
    } else {
        lemma_plot_unique_prefix(p, a, b, i - 1);
        assert(a.0[(i - 1) + 1].p0 == a.0[i - 1].p1);
        assert(b.0[(i - 1) + 1].p0 == b.0[i - 1].p1);
    }
    assert(a.0[i].k.0 == b.0[i].k.0);
    assert(a.0[i].len.0 == b.0[i].len.0);
    lemma_stroke_unique(a.0[i], b.0[i]);
}

/// One stroke turns the tangent by at most the curvature bound plus one
/// unit, because its interval spans at most one meter.
proof fn lemma_step_budget(k: int, len: int, t0: int, t1: int)
    requires
        -CURV_MAX <= k <= CURV_MAX,
        0 <= len <= SCALE,
        t1 == t0 - div_round(k * len, SCALE as int),
    ensures
        t0 - (CURV_MAX + 1) <= t1 <= t0 + (CURV_MAX + 1),
{
    assert(-(CURV_MAX as int) * SCALE <= k * len <= CURV_MAX as int * SCALE) by (nonlinear_arith)
        requires
            -CURV_MAX <= k <= CURV_MAX,
            0 <= len <= SCALE,
    ;
    lemma_div_round_le(k * len, CURV_MAX as int * SCALE, SCALE as int);
    assert(CURV_MAX as int * SCALE / (SCALE as int) == CURV_MAX) by {
        lemma_div_round_exact(CURV_MAX as int, SCALE as int);
        vstd::arithmetic::div_mod::lemma_div_multiples_vanish(CURV_MAX as int, SCALE as int);
        assert(CURV_MAX as int * SCALE == SCALE as int * CURV_MAX) by (nonlinear_arith);
    }
}

} // verus!
