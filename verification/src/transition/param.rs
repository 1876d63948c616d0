//! The transition curve's parameters and their validation errors.

use crate::agent::bat::{
    lookup, pairs_view, ArgError, ArgErrorKind, ArgValue, Args,
};
use crate::decimal::{parse_scaled, PARSE_MAX};
use crate::text::str_eq;
use crate::transition::canvas::Point;
use crate::transition::curve::{
    recip_scaled, Curvature, Diminish, Subtension, Tangential, RADIUS_MAX, RADIUS_MIN, TCL_MAX,
};
use crate::transition::distance::Distance;
use vstd::prelude::*;

verus! {

/// The diminish law a command-line value names, if any.
pub open spec fn diminish_of(v: Seq<char>) -> Option<Diminish> {
    if v == "1"@ {
        Some(Diminish::Sine)
    } else if v == "2"@ {
        Some(Diminish::Linear)
    } else {
        None
    }
}

/// Whether the radius argument `key` is faulty: present but not a
/// number, zero, or out of the representable radii.
pub open spec fn radius_err(pairs: Seq<(Seq<char>, Seq<char>)>, key: Seq<char>) -> bool {
    match lookup(pairs, key) {
        None => false,
        Some(v) => match parse_scaled(v) {
            None => true,
            Some(x) => x == 0 || !(RADIUS_MIN <= x <= RADIUS_MAX || -RADIUS_MAX <= x
                <= -RADIUS_MIN),
        },
    }
}

/// The fault of a faulty radius argument.
pub open spec fn radius_err_kind(pairs: Seq<(Seq<char>, Seq<char>)>, key: Seq<char>)
    -> ArgErrorKind {
    match lookup(pairs, key) {
        None => ArgErrorKind::Missing,
        Some(v) => match parse_scaled(v) {
            None => ArgErrorKind::NotNumber,
            Some(x) => if x == 0 {
                ArgErrorKind::ZeroValue
            } else {
                ArgErrorKind::OutOfRange
            },
        },
    }
}

/// The radius argument's value: `None` when absent (a straight tie-in).
pub open spec fn radius_val(pairs: Seq<(Seq<char>, Seq<char>)>, key: Seq<char>) -> Option<int> {
    match lookup(pairs, key) {
        None => None,
        Some(v) => match parse_scaled(v) {
            None => None,
            Some(x) => Some(x),
        },
    }
}

/// Whether the length argument `key` is faulty: missing, not a number,
/// not positive, or too long to represent.
pub open spec fn length_err(pairs: Seq<(Seq<char>, Seq<char>)>, key: Seq<char>) -> bool {
    match lookup(pairs, key) {
        None => true,
        Some(v) => match parse_scaled(v) {
            None => true,
            Some(x) => !(0 < x <= TCL_MAX),
        },
    }
}

/// The fault of a faulty length argument.
pub open spec fn length_err_kind(pairs: Seq<(Seq<char>, Seq<char>)>, key: Seq<char>)
    -> ArgErrorKind {
    match lookup(pairs, key) {
        None => ArgErrorKind::Missing,
        Some(v) => match parse_scaled(v) {
            None => ArgErrorKind::NotNumber,
            Some(x) => if x > TCL_MAX {
                ArgErrorKind::OutOfRange
            } else if x <= 0 && -PARSE_MAX <= x {
                ArgErrorKind::NotPositive
            } else {
                ArgErrorKind::OutOfRange
            },
        },
    }
}

/// The length argument's value, when it is not faulty.
pub open spec fn length_val(pairs: Seq<(Seq<char>, Seq<char>)>, key: Seq<char>) -> int {
    match lookup(pairs, key) {
        None => 0,
        Some(v) => match parse_scaled(v) {
            None => 0,
            Some(x) => x,
        },
    }
}

/// The curvature a parsed optional radius stands for: absent means
/// straight.
pub open spec fn curvature_of_radius(o: Option<int>) -> int {
    match o {
        None => 0,
        Some(rv) => recip_scaled(rv),
    }
}

/// Everything that describes one transition curve: the diminish law, the
/// curvature at each end, the stationing of the start, the curve length,
/// and the starting pose.
#[derive(Debug, Clone, Copy)]
pub struct Param {
    /// The law by which curvature diminishes from `k0` to `k1`.
    pub diminish: Diminish,
    /// Curvature at the curve's start.
    pub k0: Curvature,
    /// Curvature at the curve's end.
    pub k1: Curvature,
    /// Stationing of the curve's start.
    pub l0: Distance,
    /// The curve's total length.
    pub tcl: Subtension,
    /// The curve's starting point.
    pub p0: Point,
    /// The tangent direction at the start.
    pub t0: Tangential,
}

impl Param {
    /// Bundles the parameters of one transition curve.
    pub fn new(
        diminish: Diminish,
        k0: Curvature,
        k1: Curvature,
        l0: Distance,
        tcl: Subtension,
        p0: Point,
        t0: Tangential,
    ) -> (r: Param)
        ensures
            r.diminish == diminish,
            r.k0 == k0,
            r.k1 == k1,
            r.l0 == l0,
            r.tcl == tcl,
            r.p0 == p0,
            r.t0 == t0,
    {
        Param { diminish, k0, k1, l0, tcl, p0, t0 }
    }
}

/// The one structural fault a parameter set can have: a transition
/// length that is not positive.
#[derive(Debug, Clone, Copy, PartialEq, Eq, Structural)]
pub enum ParamError {
    /// The curve length must be greater than zero.
    NonPositiveLength,
}

impl ParamError {
    /// The user-facing message, as the host plugin prints it.
    pub fn message(&self) -> (r: String)
        ensures
            r@ == "TCLに0より大きい値を入力してください"@,
    {
        String::from_str("TCLに0より大きい値を入力してください")
    }
}

impl Param {
    /// Reads the transition parameters from the command line: the
    /// diminish law from the given argument, the end curvatures from the
    /// optional radii `R0` and `R1` (absent means a straight tie-in),
    /// and the length from `TCL`; stationing and pose start at zero, as
    /// the host plugin drives it.
    pub fn parse(diminish: &ArgValue, args: &Args) -> (r: Result<Param, ArgError>)
        ensures
            r is Ok <==> diminish_of(diminish.1@) is Some && !radius_err(
                pairs_view(args.pairs@),
                "R0"@,
            ) && !radius_err(pairs_view(args.pairs@), "R1"@) && !length_err(
                pairs_view(args.pairs@),
                "TCL"@,
            ),
            r is Ok ==> {
                let p = r->Ok_0;
                let pv = pairs_view(args.pairs@);
                &&& Some(p.diminish) == diminish_of(diminish.1@)
                &&& p.k0.0 == curvature_of_radius(radius_val(pv, "R0"@))
                &&& p.k1.0 == curvature_of_radius(radius_val(pv, "R1"@))
                &&& p.l0.0 == 0
                &&& p.tcl.0 == length_val(pv, "TCL"@)
                &&& p.p0 == (Point { 0: 0, 1: 0 })
                &&& p.t0.0 == 0
                &&& p.k0.wf()
                &&& p.k1.wf()
                &&& 0 < p.tcl.0 <= TCL_MAX
            },
            r is Err && diminish_of(diminish.1@) is None ==> r->Err_0.kind
                == ArgErrorKind::BadDiminish,
            r is Err && diminish_of(diminish.1@) is Some && radius_err(
                pairs_view(args.pairs@),
                "R0"@,
            ) ==> r->Err_0.kind == radius_err_kind(pairs_view(args.pairs@), "R0"@)
                && r->Err_0.key@ == "R0"@,
            r is Err && diminish_of(diminish.1@) is Some && !radius_err(
                pairs_view(args.pairs@),
                "R0"@,
            ) && radius_err(pairs_view(args.pairs@), "R1"@) ==> r->Err_0.kind == radius_err_kind(
                pairs_view(args.pairs@),
                "R1"@,
            ) && r->Err_0.key@ == "R1"@,
            r is Err && diminish_of(diminish.1@) is Some && !radius_err(
                pairs_view(args.pairs@),
                "R0"@,
            ) && !radius_err(pairs_view(args.pairs@), "R1"@) ==> r->Err_0.kind == length_err_kind(
                pairs_view(args.pairs@),
                "TCL"@,
            ) && r->Err_0.key@ == "TCL"@,
    {
        let d: Diminish = match Diminish::parse(diminish) {
            Ok(d) => d,
            Err(e) => {
                return Err(e);
            },
        };
        let k0: Curvature = match args.r0() {
            Ok(None) => Curvature::straight(),
            Ok(Some(rv)) => Curvature::of_radius(crate::transition::curve::Radius(rv)),
            Err(e) => {
                return Err(e);
            },
        };
        let k1: Curvature = match args.r1() {
            Ok(None) => Curvature::straight(),
            Ok(Some(rv)) => Curvature::of_radius(crate::transition::curve::Radius(rv)),
            Err(e) => {
                return Err(e);
            },
        };
        let tcl: i64 = match args.tcl() {
            Ok(x) => x,
            Err(e) => {
                return Err(e);
            },
        };
        Ok(
            Param {
                diminish: d,
                k0,
                k1,
                l0: Distance(0),
                tcl: Subtension(tcl),
                p0: Point(0, 0),
                t0: Tangential(0),
            },
        )
    }
}

impl Diminish {
    /// Reads the diminish law from its command-line value: `1` is the
    /// sine law, `2` the straight-line law, anything else a fault.
    pub fn parse(pair: &ArgValue) -> (r: Result<Diminish, ArgError>)
        ensures
            match diminish_of(pair.1@) {
                Some(d) => r == Ok::<Diminish, ArgError>(d),
                None => r is Err && r->Err_0.kind == ArgErrorKind::BadDiminish,
            },
    {
        if str_eq(pair.1, "1") {
            Ok(Diminish::Sine)
        } else if str_eq(pair.1, "2") {
            Ok(Diminish::Linear)
        } else {
            Err(ArgError::new(ArgErrorKind::BadDiminish, ""))
        }
    }
}

} // verus!
