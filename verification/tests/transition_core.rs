//! The transition curve end to end: segment counts, radii, and the
//! degenerate constant and straight cases.

use f5rail::fixed::SCALE;
use f5rail::transition::canvas::Point;
use f5rail::transition::curve::{Curvature, Diminish, Radius, Subtension, Tangential};
use f5rail::transition::distance::Distance;
use f5rail::transition::param::Param;
use f5rail::transition::plot;

fn sine_param(r0: i64, r1: i64, tcl_units: i64, l0_units: i64) -> Param {
    Param::new(
        Diminish::Sine,
        Curvature::of_radius(Radius(r0)),
        Curvature::of_radius(Radius(r1)),
        Distance(l0_units),
        Subtension(tcl_units),
        Point(0, 0),
        Tangential(0),
    )
}

const M: i64 = SCALE;

#[test]
fn segment_counts() {
    let cases: Vec<(i64, i64, usize)> = vec![
        (19 * M, 0, 19),
        (19 * M, 1 * M, 19),
        (19 * M, M / 2, 20),
        (19 * M + M / 2, 0, 20),
    ];
    for (tcl, l0, expected) in cases {
        let p = sine_param(300 * M, -300 * M, tcl, l0);
        let spiral = plot(&p).unwrap();
        assert_eq!(spiral.0.len(), expected);
    }
}

fn radii_match(p: &Param, expected: &[&str]) {
    let spiral = plot(p).unwrap();
    for (stroke, want) in spiral.0.iter().zip(expected.iter()) {
        match stroke.r() {
            None => assert!(want.is_empty(), "expected straight, got {want}"),
            Some(r) => assert!(
                r.eq_str(want),
                "radius {} does not round to {want}",
                r.0
            ),
        }
    }
}

#[test]
fn sine_radii_scenario_a() {
    let p = sine_param(300 * M, -300 * M, 19 * M, 0);
    radii_match(
        &p,
        &[
            "301.03", "309.47", "327.59", "358.35", "407.76", "488.43", "630.32", "923.93",
            "1823", "", "-1823",
        ],
    );
}

#[test]
fn sine_radii_scenario_a_shifted_whole_meter() {
    let p = sine_param(300 * M, -300 * M, 19 * M, 1 * M);
    radii_match(
        &p,
        &[
            "301.03", "309.47", "327.59", "358.35", "407.76", "488.43", "630.32", "923.93",
            "1823", "", "-1823",
        ],
    );
}

#[test]
fn sine_radii_scenario_b_fractional_start() {
    let p = sine_param(300 * M, -300 * M, 19 * M, M / 2);
    radii_match(
        &p,
        &[
            "300.26", "304.15", "317.19", "341.11", "380.16", "442.95", "548.50", "746.83",
            "1222", "3633", "-3633",
        ],
    );
}

#[test]
fn sine_radii_scenario_c_fractional_length() {
    let p = sine_param(300 * M, -300 * M, 19 * M + M / 2, 0);
    radii_match(
        &p,
        &[
            "300.98", "308.98", "326.09", "354.95", "400.80", "474.35", "600.00", "846.01",
            "1500", "7450", "-2489",
        ],
    );
}

#[test]
fn sine_radii_scenario_c_mirrors_to_the_far_end() {
    let p = sine_param(300 * M, -300 * M, 19 * M + M / 2, 0);
    let spiral = plot(&p).unwrap();
    assert_eq!(spiral.0.len(), 20);
    let last = spiral.0[19].r().unwrap();
    assert!(last.eq_str("-300.24"));
}

#[test]
fn sine_radii_large_radius() {
    let p = sine_param(30000 * M, -30000 * M, 19 * M, 0);
    radii_match(
        &p,
        &["30103", "30947", "32759", "35835", "40776", "48843", "63032", "92393"],
    );
}

#[test]
fn constant_curvature_keeps_radius_exactly() {
    let k = Curvature::of_radius(Radius(500 * M));
    let p = Param::new(
        Diminish::Linear,
        k,
        k,
        Distance(0),
        Subtension(4 * M),
        Point(0, 0),
        Tangential(0),
    );
    let spiral = plot(&p).unwrap();
    assert_eq!(spiral.0.len(), 4);
    for stroke in spiral.0.iter() {
        assert_eq!(stroke.r().unwrap(), Radius(500 * M));
    }
}

#[test]
fn zero_curvature_draws_collinear_straights() {
    let p = Param::new(
        Diminish::Linear,
        Curvature::straight(),
        Curvature::straight(),
        Distance(0),
        Subtension(5 * M),
        Point(0, 0),
        Tangential(0),
    );
    let spiral = plot(&p).unwrap();
    assert_eq!(spiral.0.len(), 5);
    let mut total: i64 = 0;
    for (i, stroke) in spiral.0.iter().enumerate() {
        assert!(stroke.r().is_none());
        assert_eq!(stroke.t1(), Tangential(0));
        // collinear along the x axis from the origin
        assert_eq!(stroke.p0(), Point(total, 0));
        total += stroke.len.0;
        assert_eq!(stroke.p1(), Point(total, 0));
        assert_eq!(stroke.len.0, M, "segment {i} spans one meter");
    }
    assert_eq!(total, 5 * M);
}

#[test]
fn pose_is_continuous_between_segments() {
    let p = sine_param(300 * M, -300 * M, 19 * M + M / 2, M / 2);
    let spiral = plot(&p).unwrap();
    for w in spiral.0.windows(2) {
        assert_eq!(w[0].p1(), w[1].p0());
        assert_eq!(w[0].t1(), w[1].t0);
    }
}

#[test]
fn segment_lengths_sum_to_curve_length() {
    for (tcl, l0) in [
        (19 * M, 0),
        (19 * M, M / 2),
        (19 * M + M / 2, 0),
        (M / 4, M / 8),
        (3 * M + 1, 7),
    ] {
        let p = sine_param(300 * M, -300 * M, tcl, l0);
        let spiral = plot(&p).unwrap();
        let total: i64 = spiral.0.iter().map(|s| s.len.0).sum();
        assert_eq!(total, tcl);
    }
}

#[test]
fn inner_boundaries_sit_on_whole_meters() {
    let p = sine_param(300 * M, -300 * M, 19 * M + M / 2, M / 2 + 12345);
    let spiral = plot(&p).unwrap();
    let l0: i64 = M / 2 + 12345;
    let mut run: i64 = l0;
    for stroke in spiral.0.iter().take(spiral.0.len() - 1) {
        run += stroke.len.0;
        assert_eq!(run % M, 0, "inner boundary {run} is not a whole meter");
    }
}

#[test]
fn non_positive_length_is_rejected() {
    let p = sine_param(300 * M, -300 * M, 0, 0);
    let e = plot(&p).unwrap_err();
    assert_eq!(
        e.message(),
        "TCLに0より大きい値を入力してください"
    );
    let p2 = sine_param(300 * M, -300 * M, -3 * M, 0);
    assert!(plot(&p2).is_err());
}

#[test]
fn short_curve_is_a_single_segment() {
    let p = sine_param(300 * M, -300 * M, M / 2, M / 4);
    let spiral = plot(&p).unwrap();
    assert_eq!(spiral.0.len(), 1);
    assert_eq!(spiral.0[0].len.0, M / 2);
}

#[test]
fn write_track() {
}
