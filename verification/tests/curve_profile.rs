//! The curvature profile on concrete values: exact ends, the affine
//! law, the mirror of the sine ease, and the curvature band.

use f5rail::fixed::SCALE;
use f5rail::transition::curve::{Central, Curvature, Diminish, Radius, Subtension, Tangential};
use f5rail::trig::HALF_PI_UNITS;

const M: i64 = SCALE;

#[test]
fn profile_hits_both_ends_exactly() {
    let k0 = Curvature::of_radius(Radius(300 * M));
    let k1 = Curvature::of_radius(Radius(-450 * M));
    for d in [Diminish::Sine, Diminish::Linear] {
        let tcl = Subtension(19 * M);
        assert_eq!(d.k(tcl, Subtension(0), k0, k1), k0);
        assert_eq!(d.k(tcl, tcl, k0, k1), k1);
    }
}

#[test]
fn linear_profile_is_affine() {
    // k0 = 1/1000, k1 = 3/1000 (in fixed point): at s = tcl/4 the
    // affine law gives exactly k0 + (k1 - k0)/4.
    let k0 = Curvature::of_radius(Radius(1000 * M));
    let k1 = Curvature(3 * k0.0);
    let tcl = Subtension(8 * M);
    let quarter = Subtension(2 * M);
    let k = Diminish::Linear.k(tcl, quarter, k0, k1);
    assert_eq!(k.0, k0.0 + (k1.0 - k0.0) / 4);
}

#[test]
fn sine_profile_is_half_of_the_change_at_the_middle() {
    let k0 = Curvature::of_radius(Radius(300 * M));
    let k1 = Curvature::of_radius(Radius(-300 * M));
    let tcl = Subtension(19 * M);
    let mid = Subtension(19 * M / 2);
    let k = Diminish::Sine.k(tcl, mid, k0, k1);
    assert_eq!(k.0, 0);
}

#[test]
fn sine_profile_mirrors_across_the_middle() {
    let k0 = Curvature::of_radius(Radius(300 * M));
    let k1 = Curvature::of_radius(Radius(-300 * M));
    let tcl = Subtension(19 * M);
    for s in [1 * M, 3 * M, 7 * M, 9 * M] {
        let near = Diminish::Sine.k(tcl, Subtension(s), k0, k1);
        let far = Diminish::Sine.k(tcl, Subtension(19 * M - s), k0, k1);
        assert_eq!(near.0, -far.0, "mirrored samples at {s}");
    }
}

#[test]
fn profile_stays_between_the_end_curvatures() {
    let k0 = Curvature::of_radius(Radius(250 * M));
    let k1 = Curvature::of_radius(Radius(-600 * M));
    let tcl = Subtension(13 * M);
    let lo = k1.0.min(k0.0);
    let hi = k1.0.max(k0.0);
    for d in [Diminish::Sine, Diminish::Linear] {
        let mut s: i64 = 0;
        while s <= 13 * M {
            let k = d.k(tcl, Subtension(s), k0, k1);
            assert!(lo <= k.0 && k.0 <= hi);
            s += M / 4;
        }
    }
}

#[test]
fn radius_and_curvature_are_reciprocal() {
    // radii whose reciprocal is exact in fixed point round-trip exactly
    for r in [500 * M, -500 * M, 1000 * M, 250 * M, M + M / 10, 2 * M] {
        let k = Curvature::of_radius(Radius(r));
        assert_eq!(k.r(), Some(Radius(r)));
    }
    // others come back within a whole-meter rounding hair
    let k = Curvature::of_radius(Radius(300 * M));
    let back = k.r().unwrap();
    assert!(back.eq_str("300.00"));
    assert_eq!(Curvature::straight().r(), None);
    assert!(Curvature::of_radius(Radius(300 * M)).is_right());
    assert!(Curvature::of_radius(Radius(-300 * M)).is_left());
    assert!(Curvature::straight().is_straight());
}

#[test]
fn radius_eq_test() {
    assert!(Radius(30_000_400_000_000).eq_str("300.00"));
    assert!(!Radius(30_000_400_000_000).eq_str("-300.00"));
    assert!(!Radius(-30_000_400_000_000).eq_str("300.00"));
    assert!(!Radius(30_000_500_000_000).eq_str("300.00"));
}

#[test]
fn sweep_and_central_angles() {
    // a right curve of radius 500 over 4 meters sweeps clockwise
    let k = Curvature::of_radius(Radius(500 * M));
    let sweep = k.a(Subtension(4 * M));
    assert_eq!(sweep, Central(-(k.0 * 4)));
    // the central angle of the point of tangency sits a quarter turn
    // from the tangent, toward the outside of the curve
    let t = Tangential(0);
    assert_eq!(t.to_central(k), Central(HALF_PI_UNITS));
    let left = Curvature::of_radius(Radius(-500 * M));
    assert_eq!(t.to_central(left), Central(-HALF_PI_UNITS));
}
