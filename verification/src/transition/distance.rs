//! Stationing and its division into whole-unit intervals.
//!
//! Stationing (chainage) is a position on a reference axis, measured in
//! fixed-point meters from an arbitrary origin.  A transition curve that
//! starts at stationing `l0` with length `tcl` is split into intervals
//! whose boundaries all fall on whole-meter stationing marks, except
//! possibly the first boundary (`l0` itself) and the last (`l0 + tcl`).

use crate::fixed::SCALE;
use crate::transition::curve::{Subtension, TCL_MAX};
use vstd::arithmetic::div_mod::{
    lemma_fundamental_div_mod, lemma_fundamental_div_mod_converse_div,
};
use vstd::prelude::*;

verus! {

/// Largest stationing (and coordinate) magnitude: one thousand
/// kilometers in fixed-point units.
pub const DIST_MAX: i64 = 100_000_000_000_000_000;

/// A stationing position, in fixed-point meters from the stationing
/// origin.
#[derive(Debug, Clone, Copy, PartialEq, Eq, Structural)]
pub struct Distance(pub i64);

/// The largest whole-meter mark at or below `v`.
pub open spec fn floor_mark(v: int) -> int {
    (v / SCALE as int) * SCALE
}

/// The smallest whole-meter mark at or above `v`.
pub open spec fn ceil_mark(v: int) -> int {
    -floor_mark(-v)
}

/// The floor mark is a whole-meter multiple within one meter below `v`.
pub proof fn lemma_floor_mark(v: int)
    ensures
        floor_mark(v) <= v < floor_mark(v) + SCALE,
        floor_mark(v) % (SCALE as int) == 0,
        v % (SCALE as int) == 0 ==> floor_mark(v) == v,
{
    lemma_fundamental_div_mod(v, SCALE as int);
    assert((v / SCALE as int) * SCALE == SCALE as int * (v / SCALE as int)) by (nonlinear_arith);
    assert(floor_mark(v) % (SCALE as int) == 0) by {
        lemma_fundamental_div_mod_converse_div(floor_mark(v), SCALE as int, v / SCALE as int, 0);
        vstd::arithmetic::div_mod::lemma_fundamental_div_mod_converse_mod(
            floor_mark(v),
            SCALE as int,
            v / SCALE as int,
            0,
        );
    }
}

/// The ceil mark is a whole-meter multiple within one meter above `v`.
pub proof fn lemma_ceil_mark(v: int)
    ensures
        v <= ceil_mark(v) < v + SCALE,
        ceil_mark(v) % (SCALE as int) == 0,
        v % (SCALE as int) == 0 ==> ceil_mark(v) == v,
{
    lemma_floor_mark(-v);
    assert(ceil_mark(v) % (SCALE as int) == 0) by {
        let q = (-v) / SCALE as int;
        assert(ceil_mark(v) == (-q) * SCALE) by (nonlinear_arith)
            requires
                ceil_mark(v) == -(q * SCALE),
        ;
        lemma_fundamental_div_mod_converse_mod_wrap(ceil_mark(v), -q);
    }
    if v % (SCALE as int) == 0 {
        lemma_fundamental_div_mod(v, SCALE as int);
        lemma_fundamental_div_mod(-v, SCALE as int);
        assert((-v) % (SCALE as int) == 0) by {
            lemma_fundamental_div_mod_converse_mod_wrap(-v, -(v / SCALE as int));
        }
        assert(floor_mark(-v) == -v) by {
            lemma_floor_mark(-v);
        }
    }
}

/// A whole-meter multiple has remainder zero.
proof fn lemma_fundamental_div_mod_converse_mod_wrap(x: int, q: int)
    requires
        x == q * SCALE,
    ensures
        x % (SCALE as int) == 0,
{
    vstd::arithmetic::div_mod::lemma_fundamental_div_mod_converse_mod(x, SCALE as int, q, 0);
}

/// The first whole-meter boundary strictly after `l0` (a full meter
/// ahead when `l0` is itself a mark).
pub open spec fn first_mark(l0: int) -> int {
    floor_mark(l0) + SCALE
}

/// The last whole-meter boundary strictly before `l1` (a full meter back
/// when `l1` is itself a mark).
pub open spec fn last_mark(l1: int) -> int {
    ceil_mark(l1) - SCALE
}

/// How many intervals the stretch from `l0` to `l0 + tcl` is split into:
/// a single one when no whole-meter mark falls strictly inside, else one
/// per inner mark plus the two outer pieces.
pub open spec fn interval_count(l0: int, tcl: int) -> int {
    if first_mark(l0) >= l0 + tcl {
        1
    } else {
        (last_mark(l0 + tcl) - first_mark(l0)) / SCALE as int + 2
    }
}

/// Boundary `i` of the split, in absolute stationing: `l0`, then the
/// inner whole-meter marks, then `l0 + tcl`.
pub open spec fn boundary(l0: int, tcl: int, i: int) -> int {
    if i <= 0 {
        l0
    } else if i >= interval_count(l0, tcl) {
        l0 + tcl
    } else {
        first_mark(l0) + (i - 1) * SCALE
    }
}

/// The boundaries are strictly increasing, the inner ones are whole-meter
/// marks, and each interval spans at most one meter.
pub proof fn lemma_boundaries(l0: int, tcl: int)
    requires
        0 < tcl,
    ensures
        forall|i: int|
            0 <= i < interval_count(l0, tcl) ==> #[trigger] boundary(l0, tcl, i) < boundary(
                l0,
                tcl,
                i + 1,
            ),
        forall|i: int|
            0 <= i < interval_count(l0, tcl) ==> boundary(l0, tcl, i + 1) - #[trigger] boundary(
                l0,
                tcl,
                i,
            ) <= SCALE,
        forall|i: int|
            0 < i < interval_count(l0, tcl) ==> #[trigger] boundary(l0, tcl, i) % (SCALE as int)
                == 0,
        interval_count(l0, tcl) >= 1,
        boundary(l0, tcl, 0) == l0,
        boundary(l0, tcl, interval_count(l0, tcl)) == l0 + tcl,
{
    let l1 = l0 + tcl;
    let fm = first_mark(l0);
    let lm = last_mark(l1);
    lemma_floor_mark(l0);
    lemma_ceil_mark(l1);
    let n = interval_count(l0, tcl);
    if fm >= l1 {
    } else {
        assert(fm % (SCALE as int) == 0) by {
            lemma_fundamental_div_mod_converse_mod_wrap(fm, l0 / SCALE as int + 1);
            assert(fm == (l0 / SCALE as int + 1) * SCALE) by (nonlinear_arith)
                requires
                    fm == (l0 / SCALE as int) * SCALE + SCALE,
            ;
        }
        assert(lm % (SCALE as int) == 0) by {
            let cq = -((-l1) / SCALE as int);
            assert(ceil_mark(l1) == cq * SCALE) by (nonlinear_arith)
                requires
                    ceil_mark(l1) == -(((-l1) / SCALE as int) * SCALE),
                    cq == -((-l1) / SCALE as int),
            ;
            lemma_fundamental_div_mod_converse_mod_wrap(lm, cq - 1);
            assert(lm == (cq - 1) * SCALE) by (nonlinear_arith)
                requires
                    lm == cq * SCALE - SCALE,
            ;
        }
        // `fm <= lm`: both are marks, and `fm < l1 <= ceil(l1) = lm + SCALE`.
        assert(fm <= lm) by {
            let a = fm / SCALE as int;
            let b = (lm + SCALE) / SCALE as int;
            lemma_div_exact_mark(fm);
            lemma_div_exact_mark(lm + SCALE);
            assert(fm < lm + SCALE);
            assert(a < b) by (nonlinear_arith)
                requires
                    fm == a * SCALE,
                    lm + SCALE == b * SCALE,
                    fm < lm + SCALE,
            ;
            assert(fm <= lm) by (nonlinear_arith)
                requires
                    fm == a * SCALE,
                    lm + SCALE == b * SCALE,
                    a < b,
            ;
        }
        assert((lm - fm) % (SCALE as int) == 0 && (lm - fm) / SCALE as int >= 0) by {
            let a = fm / SCALE as int;
            let b = lm / SCALE as int;
            lemma_div_exact_mark(fm);
            lemma_div_exact_mark(lm);
            assert(lm - fm == (b - a) * SCALE) by (nonlinear_arith)
                requires
                    fm == a * SCALE,
                    lm == b * SCALE,
            ;
            lemma_fundamental_div_mod_converse_mod_wrap(lm - fm, b - a);
            lemma_fundamental_div_mod_converse_div(lm - fm, SCALE as int, b - a, 0);
            assert(b - a >= 0) by (nonlinear_arith)
                requires
                    fm == a * SCALE,
                    lm == b * SCALE,
                    fm <= lm,
            ;
        }
        assert(n == (lm - fm) / SCALE as int + 2);
        assert forall|i: int| 0 < i < n implies boundary(l0, tcl, i) % (SCALE as int) == 0 by {
            lemma_fundamental_div_mod_converse_mod_wrap(
                boundary(l0, tcl, i),
                fm / SCALE as int + (i - 1),
            );
            lemma_div_exact_mark(fm);
            assert(boundary(l0, tcl, i) == (fm / SCALE as int + (i - 1)) * SCALE)
                by (nonlinear_arith)
                requires
                    boundary(l0, tcl, i) == fm + (i - 1) * SCALE,
                    fm == (fm / SCALE as int) * SCALE,
            ;
        }
        assert forall|i: int| 0 <= i < n implies #[trigger] boundary(l0, tcl, i) < boundary(
            l0,
            tcl,
            i + 1,
        ) && boundary(l0, tcl, i + 1) - boundary(l0, tcl, i) <= SCALE by {
            lemma_fundamental_div_mod((lm - fm), SCALE as int);
            assert((n - 2) * SCALE == lm - fm) by (nonlinear_arith)
                requires
                    n - 2 == (lm - fm) / SCALE as int,
                    (lm - fm) % (SCALE as int) == 0,
                    lm - fm == SCALE as int * ((lm - fm) / SCALE as int) + (lm - fm) % (
                    SCALE as int),
            ;
            if i == 0 {
            } else if i == n - 1 {
                assert(boundary(l0, tcl, n - 1) == lm) by (nonlinear_arith)
                    requires
                        boundary(l0, tcl, n - 1) == fm + (n - 2) * SCALE,
                        (n - 2) * SCALE == lm - fm,
                ;
            } else {
                assert((i - 1) * SCALE + SCALE == i * SCALE) by (nonlinear_arith);
                assert((i - 1) * SCALE < (n - 2) * SCALE) by (nonlinear_arith)
                    requires
                        i - 1 < n - 2,
                ;
                assert(i * SCALE <= (n - 2) * SCALE) by (nonlinear_arith)
                    requires
                        i <= n - 2,
                ;
            }
        }
    }
}

/// A whole-meter mark divides exactly by the meter.
proof fn lemma_div_exact_mark(v: int)
    requires
        v % (SCALE as int) == 0,
    ensures
        v == (v / SCALE as int) * SCALE,
{
    lemma_fundamental_div_mod(v, SCALE as int);
    assert(v == (v / SCALE as int) * SCALE) by (nonlinear_arith)
        requires
            v == SCALE as int * (v / SCALE as int),
    ;
}

impl Distance {
    /// A well-formed stationing has magnitude within `DIST_MAX`.
    pub open spec fn wf(self) -> bool {
        -DIST_MAX <= self.0 <= DIST_MAX
    }

    /// The largest whole-meter mark at or below this position.
    pub fn floor(&self) -> (r: Distance)
        requires
            -8_000_000_000_000_000_000 <= self.0 <= 8_000_000_000_000_000_000,
        ensures
            r.0 == floor_mark(self.0 as int),
    {
        proof {
            lemma_floor_mark(self.0 as int);
        }
        if self.0 >= 0 {
            let q: u64 = (self.0 as u64) / (SCALE as u64);
            proof {
                lemma_fundamental_div_mod(self.0 as int, SCALE as int);
            }
            Distance((q as i64) * SCALE)
        } else {
            let m: u64 = (-self.0) as u64;
            let q: u64 = (m + (SCALE as u64 - 1)) / (SCALE as u64);
            proof {
                lemma_fundamental_div_mod(m as int + (SCALE - 1), SCALE as int);
                lemma_fundamental_div_mod_converse_div(
                    self.0 as int,
                    SCALE as int,
                    -(q as int),
                    q as int * SCALE - m,
                );
            }
            Distance(-((q as i64) * SCALE))
        }
    }

    /// The smallest whole-meter mark at or above this position.
    pub fn ceil(&self) -> (r: Distance)
        requires
            -8_000_000_000_000_000_000 <= self.0 <= 8_000_000_000_000_000_000,
        ensures
            r.0 == ceil_mark(self.0 as int),
    {
        proof {
            lemma_ceil_mark(self.0 as int);
            lemma_floor_mark(-self.0 as int);
        }
        let neg = Distance(-self.0);
        let f = neg.floor();
        Distance(-f.0)
    }

    /// The whole-meter mark one meter ahead.
    pub fn next(&self) -> (r: Distance)
        requires
            -8_000_000_000_000_000_000 <= self.0 <= 8_000_000_000_000_000_000,
        ensures
            r.0 == self.0 + SCALE,
    {
        Distance(self.0 + SCALE)
    }

    /// The whole-meter mark one meter back.
    pub fn prev(&self) -> (r: Distance)
        requires
            -8_000_000_000_000_000_000 <= self.0 <= 8_000_000_000_000_000_000,
        ensures
            r.0 == self.0 - SCALE,
    {
        Distance(self.0 - SCALE)
    }

    /// Moves this position one meter ahead.
    pub fn advance(&mut self)
        requires
            -8_000_000_000_000_000_000 <= old(self).0 <= 8_000_000_000_000_000_000,
        ensures
            final(self).0 == old(self).0 + SCALE,
    {
        self.0 = self.0 + SCALE;
    }
}

/// One interval of the split: the arc lengths, measured from the curve's
/// own start, of the interval's two ends.
#[derive(Debug, Clone, Copy, PartialEq, Eq, Structural)]
pub struct Interval {
    /// Arc length from the curve's start to the interval's start.
    pub s0: Subtension,
    /// Arc length from the curve's start to the interval's end.
    pub s1: Subtension,
}

impl Interval {
    /// Arc length from the curve's start to the middle of the interval.
    pub fn s(&self) -> (r: Subtension)
        requires
            0 <= self.s0.0,
            self.s0.0 <= self.s1.0 <= TCL_MAX,
        ensures
            r.0 == (self.s0.0 + self.s1.0) / 2,
            self.s0.0 <= r.0 <= self.s1.0,
    {
        let sum: u64 = (self.s0.0 as u64) + (self.s1.0 as u64);
        let half: u64 = sum / 2;
        proof {
            lemma_fundamental_div_mod(sum as int, 2);
        }
        Subtension((half) as i64)
    }

    /// The interval's own length.
    pub fn len(&self) -> (r: Subtension)
        requires
            0 <= self.s0.0 <= self.s1.0 <= TCL_MAX,
        ensures
            r.0 == self.s1.0 - self.s0.0,
    {
        Subtension(self.s1.0 - self.s0.0)
    }
}

/// Splits the stationing stretch of a transition curve into whole-meter
/// intervals.
pub struct Ruler {
    /// Stationing of the curve's start.
    pub l0: Distance,
    /// The curve's total length.
    pub tcl: Subtension,
}

impl Ruler {
    /// A well-formed ruler has a bounded start and a positive, bounded
    /// length.
    pub open spec fn wf(self) -> bool {
        self.l0.wf() && self.tcl.wf() && self.tcl.0 > 0
    }

    /// Sets up the split of the curve that starts at stationing
    /// `first_l0` and runs for `tcl`.
    pub fn new(first_l0: Distance, tcl: Subtension) -> (r: Ruler)
        requires
            first_l0.wf(),
            tcl.wf(),
            tcl.0 > 0,
        ensures
            r.l0 == first_l0,
            r.tcl == tcl,
            r.wf(),
    {
        Ruler { l0: first_l0, tcl }
    }

    /// The intervals of the split, in order: every boundary between two
    /// intervals is a whole-meter stationing mark, the first interval
    /// starts at the curve's start and the last ends exactly at its end.
    pub fn intervals(&self) -> (v: Vec<Interval>)
        requires
            self.wf(),
        ensures
            v.len() == interval_count(self.l0.0 as int, self.tcl.0 as int),
            forall|i: int|
                0 <= i < v.len() ==> #[trigger] v[i].s0.0 == boundary(
                    self.l0.0 as int,
                    self.tcl.0 as int,
                    i,
                ) - self.l0.0 && v[i].s1.0 == boundary(self.l0.0 as int, self.tcl.0 as int, i + 1)
                    - self.l0.0,
            forall|i: int|
                0 <= i < v.len() ==> 0 <= #[trigger] v[i].s0.0 && v[i].s0.0 < v[i].s1.0
                    && v[i].s1.0 <= self.tcl.0 && v[i].s1.0 - v[i].s0.0 <= SCALE,
    {
        let l0: i64 = self.l0.0;
        let tcl: i64 = self.tcl.0;
        let ghost gl0 = l0 as int;
        let ghost gtcl = tcl as int;
        proof {
            lemma_boundaries(gl0, gtcl);
            lemma_floor_mark(gl0);
            lemma_ceil_mark(gl0 + gtcl);
        }
        let l1: i64 = l0 + tcl;
        let fm: i64 = self.l0.floor().next().0;
        let mut v: Vec<Interval> = Vec::new();
        if fm >= l1 {
            v.push(Interval { s0: Subtension(0), s1: Subtension(tcl) });
            proof {
                assert(interval_count(gl0, gtcl) == 1);
                assert(boundary(gl0, gtcl, 0) == gl0);
                assert(boundary(gl0, gtcl, 1) == gl0 + gtcl);
            }
            return v;
        }
        let lm: i64 = Distance(l1).ceil().prev().0;
        v.push(Interval { s0: Subtension(0), s1: Subtension(fm - l0) });
        let mut b: i64 = fm;
        proof {
            lemma_boundary_index(gl0, gtcl, fm as int, 1);
        }
        while b < lm
            invariant
                Distance(l0).wf(),
                0 < tcl <= TCL_MAX,
                l1 == l0 + tcl,
                fm == first_mark(gl0),
                lm == last_mark(gl0 + gtcl),
                gl0 == l0 as int,
                gtcl == tcl as int,
                fm < l1,
                fm <= b <= lm,
                b == fm + (v.len() - 1) * SCALE,
                1 <= v.len() < interval_count(gl0, gtcl),
                forall|i: int|
                    0 <= i < v.len() ==> #[trigger] v[i].s0.0 == boundary(gl0, gtcl, i) - gl0 && v[
                        i
                    ].s1.0 == boundary(gl0, gtcl, i + 1) - gl0,
            decreases lm - b,
        {
            proof {
                lemma_boundaries(gl0, gtcl);
                lemma_boundary_index(gl0, gtcl, b as int, v.len() as int);
                lemma_boundary_index(gl0, gtcl, b as int + SCALE, v.len() as int + 1);
            }
            v.push(Interval { s0: Subtension(b - l0), s1: Subtension(b + SCALE - l0) });
            b = b + SCALE;
        }
        proof {
            lemma_boundaries(gl0, gtcl);
            lemma_boundary_index(gl0, gtcl, b as int, v.len() as int);
            assert(b == lm);
            assert(v.len() == interval_count(gl0, gtcl) - 1) by {
                lemma_count_from_mark(gl0, gtcl, b as int, v.len() as int);
            }
        }
        v.push(Interval { s0: Subtension(lm - l0), s1: Subtension(l1 - l0) });
        proof {
            assert(boundary(gl0, gtcl, v.len() - 1) == lm);
            assert(boundary(gl0, gtcl, v.len() as int) == gl0 + gtcl);
            lemma_boundaries(gl0, gtcl);
            assert forall|i: int| 0 <= i < v.len() implies 0 <= #[trigger] v[i].s0.0 && v[i].s0.0
                < v[i].s1.0 && v[i].s1.0 <= tcl && v[i].s1.0 - v[i].s0.0 <= SCALE by {
                lemma_boundary_span(gl0, gtcl, i);
            }
        }
        v
    }
}

/// Relates a running mark to its boundary index: mark `fm + (i-1) *
/// SCALE` is boundary `i` while it stays at or before the last mark.
proof fn lemma_boundary_index(l0: int, tcl: int, b: int, i: int)
    requires
        first_mark(l0) < l0 + tcl,
        1 <= i,
        b == first_mark(l0) + (i - 1) * SCALE,
        b <= last_mark(l0 + tcl),
    ensures
        i < interval_count(l0, tcl),
        boundary(l0, tcl, i) == b,
{
    let fm = first_mark(l0);
    let lm = last_mark(l0 + tcl);
    let n = interval_count(l0, tcl);
    lemma_boundaries(l0, tcl);
    lemma_floor_mark(l0);
    lemma_ceil_mark(l0 + tcl);
    assert((lm - fm) % (SCALE as int) == 0 && n - 2 == (lm - fm) / SCALE as int) by {
        lemma_marks_divisible(l0, tcl);
    }
    lemma_fundamental_div_mod(lm - fm, SCALE as int);
    assert((n - 2) * SCALE == lm - fm) by (nonlinear_arith)
        requires
            n - 2 == (lm - fm) / SCALE as int,
            (lm - fm) % (SCALE as int) == 0,
            lm - fm == SCALE as int * ((lm - fm) / SCALE as int) + (lm - fm) % (SCALE as int),
    ;
    assert(i - 1 <= n - 2) by (nonlinear_arith)
        requires
            (i - 1) * SCALE <= (n - 2) * SCALE,
    ;
}

/// Both inner marks are divisible by the meter, so the count formula is
/// exact.
proof fn lemma_marks_divisible(l0: int, tcl: int)
    requires
        first_mark(l0) < l0 + tcl,
        0 < tcl,
    ensures
        (last_mark(l0 + tcl) - first_mark(l0)) % (SCALE as int) == 0,
        interval_count(l0, tcl) - 2 == (last_mark(l0 + tcl) - first_mark(l0)) / SCALE as int,
        last_mark(l0 + tcl) >= first_mark(l0),
{
    let fm = first_mark(l0);
    let lm = last_mark(l0 + tcl);
    lemma_floor_mark(l0);
    lemma_ceil_mark(l0 + tcl);
    let a = l0 / SCALE as int + 1;
    let b = -((-(l0 + tcl)) / SCALE as int) - 1;
    assert(fm == a * SCALE) by (nonlinear_arith)
        requires
            fm == (l0 / SCALE as int) * SCALE + SCALE,
            a == l0 / SCALE as int + 1,
    ;
    assert(lm == b * SCALE) by (nonlinear_arith)
        requires
            lm == -(((-(l0 + tcl)) / SCALE as int) * SCALE) - SCALE,
            b == -((-(l0 + tcl)) / SCALE as int) - 1,
    ;
    assert(fm <= lm) by {
        assert(fm < lm + SCALE);
        assert(a < b + 1) by (nonlinear_arith)
            requires
                fm == a * SCALE,
                lm == b * SCALE,
                fm < lm + SCALE,
        ;
        assert(fm <= lm) by (nonlinear_arith)
            requires
                fm == a * SCALE,
                lm == b * SCALE,
                a <= b,
        ;
    }
    assert(lm - fm == (b - a) * SCALE) by (nonlinear_arith)
        requires
            fm == a * SCALE,
            lm == b * SCALE,
    ;
    vstd::arithmetic::div_mod::lemma_fundamental_div_mod_converse_mod(
        lm - fm,
        SCALE as int,
        b - a,
        0,
    );
    lemma_fundamental_div_mod_converse_div(lm - fm, SCALE as int, b - a, 0);
}

/// When the running mark has reached the last mark, the number of pushed
/// intervals is one short of the count.
proof fn lemma_count_from_mark(l0: int, tcl: int, b: int, pushed: int)
    requires
        first_mark(l0) < l0 + tcl,
        0 < tcl,
        b == last_mark(l0 + tcl),
        b == first_mark(l0) + (pushed - 1) * SCALE,
    ensures
        pushed == interval_count(l0, tcl) - 1,
{
    lemma_marks_divisible(l0, tcl);
    let fm = first_mark(l0);
    let lm = last_mark(l0 + tcl);
    let n = interval_count(l0, tcl);
    lemma_fundamental_div_mod(lm - fm, SCALE as int);
    assert((n - 2) * SCALE == lm - fm) by (nonlinear_arith)
        requires
            n - 2 == (lm - fm) / SCALE as int,
            (lm - fm) % (SCALE as int) == 0,
            lm - fm == SCALE as int * ((lm - fm) / SCALE as int) + (lm - fm) % (SCALE as int),
    ;
    assert(pushed - 1 == n - 2) by (nonlinear_arith)
        requires
            (pushed - 1) * SCALE == (n - 2) * SCALE,
    ;
}

/// Each interval spans a positive stretch of at most one meter inside
/// `[0, tcl]`.
proof fn lemma_boundary_span(l0: int, tcl: int, i: int)
    requires
        0 < tcl,
        0 <= i < interval_count(l0, tcl),
    ensures
        0 <= boundary(l0, tcl, i) - l0,
        boundary(l0, tcl, i) < boundary(l0, tcl, i + 1),
        boundary(l0, tcl, i + 1) - boundary(l0, tcl, i) <= SCALE,
        boundary(l0, tcl, i + 1) - l0 <= tcl,
{
    lemma_boundaries(l0, tcl);
    lemma_boundary_monotone(l0, tcl, 0, i);
    lemma_boundary_monotone(l0, tcl, i + 1, interval_count(l0, tcl));
}

/// Every boundary lies between the curve's two ends.
pub proof fn lemma_boundary_between(l0: int, tcl: int, i: int)
    requires
        0 < tcl,
        0 <= i <= interval_count(l0, tcl),
    ensures
        0 <= boundary(l0, tcl, i) - l0 <= tcl,
{
    lemma_boundaries(l0, tcl);
    lemma_boundary_monotone(l0, tcl, 0, i);
    lemma_boundary_monotone(l0, tcl, i, interval_count(l0, tcl));
}

/// Boundaries are monotone in the index.
proof fn lemma_boundary_monotone(l0: int, tcl: int, i: int, j: int)
    requires
        0 < tcl,
        0 <= i <= j <= interval_count(l0, tcl),
    ensures
        boundary(l0, tcl, i) <= boundary(l0, tcl, j),
    decreases j - i,
{
    if i < j {
        lemma_boundaries(l0, tcl);
        lemma_boundary_monotone(l0, tcl, i + 1, j);
    }
}

} // verus!
