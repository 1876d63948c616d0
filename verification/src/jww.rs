//! The host-plugin side: its raw command-line arguments, and the lines
//! of the exchange file that the drawn curve becomes.

pub mod jww_temp;
pub mod param;

use crate::agent::bat::{ArgError, ArgErrorKind};
use crate::decimal::{fmt_scaled, parse_units, push_scaled, push_scaled_wide, ParseOutcome};
use crate::fixed::{div_round, div_round_i128, lemma_div_round_le, DIV_ARG_MAX, SCALE};
use crate::text::{has_prefix, str_eq, str_starts_with};
use crate::transition::canvas::{Spiral, Stroke};
use crate::transition::curve::{
    Curvature, Diminish, Subtension, Tangential, RADIUS_MAX, RADIUS_MIN, TCL_MAX,
};
use crate::transition::distance::Distance;
use crate::trig::PI_UNITS;
use vstd::prelude::*;

verus! {

/// The external-transform plugin.
pub struct PlugIn {}

/// The rest of the first token that begins with `p`, if any token does.
pub open spec fn suffix_after(tokens: Seq<Seq<char>>, p: Seq<char>) -> Option<Seq<char>>
    decreases tokens.len(),
{
    if tokens.len() == 0 {
        None
    } else if has_prefix(tokens[0], p) {
        Some(tokens[0].skip(p.len() as int))
    } else {
        suffix_after(tokens.drop_first(), p)
    }
}

/// The raw command-line tokens, matched by prefix.
pub struct Args(pub Vec<String>);

impl Args {
    /// The view of the tokens as character sequences.
    pub open spec fn tokens(&self) -> Seq<Seq<char>> {
        self.0@.map_values(|a: String| a@)
    }

    /// The rest of the first token that begins with `prefix`.
    fn find_suffix(&self, prefix: &str) -> (r: Option<String>)
        ensures
            match suffix_after(self.tokens(), prefix@) {
                Some(v) => r is Some && r->Some_0@ == v,
                None => r is None,
            },
    {
        let n: usize = self.0.len();
        let mut i: usize = 0;
        proof {
            assert(self.tokens().skip(0) =~= self.tokens());
        }
        while i < n
            invariant
                n == self.0.len(),
                0 <= i <= n,
                suffix_after(self.tokens(), prefix@) == suffix_after(
                    self.tokens().skip(i as int),
                    prefix@,
                ),
            decreases n - i,
        {
            let tok: &String = &self.0[i];
            proof {
                assert(self.tokens().skip(i as int)[0] == self.tokens()[i as int]);
                assert(self.tokens().skip(i as int).drop_first() =~= self.tokens().skip(
                    i as int + 1,
                ));
            }
            if str_starts_with(tok.as_str(), prefix) {
                let plen: usize = prefix.unicode_len();
                let tlen: usize = tok.as_str().unicode_len();
                let rest: &str = tok.as_str().substring_char(plen, tlen);
                proof {
                    assert(rest@ =~= self.tokens()[i as int].skip(prefix@.len() as int));
                }
                return Some(rest.to_owned());
            }
            i = i + 1;
        }
        proof {
            assert(self.tokens().skip(n as int) =~= Seq::<Seq<char>>::empty());
        }
        None
    }

    /// What stands after `prefix` in the first token carrying it, or
    /// the not-given fault.
    pub fn get(&self, prefix: &str) -> (r: Result<String, ArgError>)
        ensures
            match suffix_after(self.tokens(), prefix@) {
                Some(v) => r is Ok && r->Ok_0@ == v,
                None => r is Err && r->Err_0.kind == ArgErrorKind::NotGiven && r->Err_0.key@
                    == prefix@,
            },
    {
        match self.find_suffix(prefix) {
            Some(v) => Ok(v),
            None => Err(ArgError::new(ArgErrorKind::NotGiven, prefix)),
        }
    }

    /// The diminish law the `/TRANSITION` argument picks, if a valid
    /// one.
    pub fn transition(&self) -> (r: Option<Diminish>)
        ensures
            r == (match suffix_after(self.tokens(), "/TRANSITION"@) {
                Some(v) => if v == ":1"@ {
                    Some(Diminish::Sine)
                } else if v == ":2"@ {
                    Some(Diminish::Linear)
                } else {
                    None::<Diminish>
                },
                None => None::<Diminish>,
            }),
    {
        match self.find_suffix("/TRANSITION") {
            Some(v) => {
                if str_eq(v.as_str(), ":1") {
                    Some(Diminish::Sine)
                } else if str_eq(v.as_str(), ":2") {
                    Some(Diminish::Linear)
                } else {
                    None
                }
            },
            None => None,
        }
    }

    /// The end curvature `i` (0 or 1) from the `/R0:` or `/R1:`
    /// argument: absent means a straight tie-in; a value that is no
    /// representable nonzero radius is a fault.
    pub fn curvature(&self, i: u64) -> (r: Result<Curvature, ArgError>)
        requires
            i <= 1,
        ensures
            r is Ok ==> r->Ok_0.wf(),
            ({
                let key = if i == 0 {
                    "R0"@
                } else {
                    "R1"@
                };
                let pfx = if i == 0 {
                    "/R0:"@
                } else {
                    "/R1:"@
                };
                match suffix_after(self.tokens(), pfx) {
                    None => r is Ok && r->Ok_0.0 == 0,
                    Some(v) => match crate::decimal::parse_scaled(v) {
                        None => r is Err && r->Err_0.kind == ArgErrorKind::NotNumber
                            && r->Err_0.key@ == key,
                        Some(x) => if x == 0 {
                            r is Err && r->Err_0.kind == ArgErrorKind::ZeroValue && r->Err_0.key@
                                == key
                        } else if RADIUS_MIN <= x <= RADIUS_MAX || -RADIUS_MAX <= x
                            <= -RADIUS_MIN {
                            r is Ok && r->Ok_0.0 == crate::transition::curve::recip_scaled(x)
                        } else {
                            r is Err && r->Err_0.kind == ArgErrorKind::OutOfRange && r->Err_0.key@
                                == key
                        },
                    },
                }
            }),
    {
        let prefix: &str = if i == 0 {
            "/R0:"
        } else {
            "/R1:"
        };
        let key: &str = if i == 0 {
            "R0"
        } else {
            "R1"
        };
        let v: String = match self.find_suffix(prefix) {
            Some(v) => v,
            None => {
                return Ok(Curvature::straight());
            },
        };
        let x: i64 = match parse_units(v.as_str()) {
            ParseOutcome::Value(x) => x,
            ParseOutcome::TooLarge => {
                return Err(ArgError::new(ArgErrorKind::OutOfRange, key));
            },
            ParseOutcome::NotNumber => {
                return Err(ArgError::new(ArgErrorKind::NotNumber, key));
            },
        };
        if x == 0 {
            return Err(ArgError::new(ArgErrorKind::ZeroValue, key));
        }
        if x < 0 {
            if x > -RADIUS_MIN || x < -RADIUS_MAX {
                return Err(ArgError::new(ArgErrorKind::OutOfRange, key));
            }
        } else {
            if x < RADIUS_MIN || x > RADIUS_MAX {
                return Err(ArgError::new(ArgErrorKind::OutOfRange, key));
            }
        }
        Ok(Curvature::of_radius(crate::transition::curve::Radius(x)))
    }

    /// The curve length from the `/TCL:` argument.  It must be given, be
    /// a number, and fit the largest transition length; whether it is
    /// positive is judged where the curve is drawn.
    pub fn tcl(&self) -> (r: Result<Subtension, ArgError>)
        ensures
            match suffix_after(self.tokens(), "/TCL:"@) {
                None => r is Err && r->Err_0.kind == ArgErrorKind::Missing && r->Err_0.key@
                    == "TCL"@,
                Some(v) => match crate::decimal::parse_scaled(v) {
                    None => r is Err && r->Err_0.kind == ArgErrorKind::NotNumber && r->Err_0.key@
                        == "TCL"@,
                    Some(x) => if -TCL_MAX <= x <= TCL_MAX {
                        r is Ok && r->Ok_0.0 == x
                    } else {
                        r is Err && r->Err_0.kind == ArgErrorKind::OutOfRange && r->Err_0.key@
                            == "TCL"@
                    },
                },
            },
    {
        let v: String = match self.find_suffix("/TCL:") {
            Some(v) => v,
            None => {
                return Err(ArgError::new(ArgErrorKind::Missing, "TCL"));
            },
        };
        let x: i64 = match parse_units(v.as_str()) {
            ParseOutcome::Value(x) => x,
            ParseOutcome::TooLarge => {
                return Err(ArgError::new(ArgErrorKind::OutOfRange, "TCL"));
            },
            ParseOutcome::NotNumber => {
                return Err(ArgError::new(ArgErrorKind::NotNumber, "TCL"));
            },
        };
        if x < -TCL_MAX || x > TCL_MAX {
            return Err(ArgError::new(ArgErrorKind::OutOfRange, "TCL"));
        }
        Ok(Subtension(x))
    }

    /// Which track action to run.  In this snapshot the host always
    /// exports; the full selection is not wired up yet.
    pub fn track(&self) -> (r: Option<&'static str>)
        ensures
            r is Some,
            r->Some_0@ == "export"@,
    {
        Some("export")
    }

    /// The stationing of the curve's start: the host always starts at
    /// the origin.
    pub fn distance0(&self) -> (r: Distance)
        ensures
            r.0 == 0,
    {
        Distance(0)
    }

    /// The curve's starting point: the origin.
    pub fn p0(&self) -> (r: crate::transition::canvas::Point)
        ensures
            r.0 == 0,
            r.1 == 0,
    {
        crate::transition::canvas::Point(0, 0)
    }

    /// The tangent direction at the start: along the positive x axis.
    pub fn t0(&self) -> (r: Tangential)
        ensures
            r.0 == 0,
    {
        Tangential(0)
    }

    /// The path of the exchange file.
    pub fn jwc_path(&self) -> (r: Result<String, ArgError>)
        ensures
            match suffix_after(self.tokens(), "/TEMP:"@) {
                Some(v) => r is Ok && r->Ok_0@ == v,
                None => r is Err && r->Err_0.kind == ArgErrorKind::NotGiven && r->Err_0.key@
                    == "/TEMP:"@,
            },
    {
        self.get("/TEMP:")
    }

    /// The path of the own track's exchange file.
    pub fn jwc_0_path(&self) -> (r: Result<String, ArgError>)
        ensures
            match suffix_after(self.tokens(), "/TEMP_0:"@) {
                Some(v) => r is Ok && r->Ok_0@ == v,
                None => r is Err && r->Err_0.kind == ArgErrorKind::NotGiven && r->Err_0.key@
                    == "/TEMP_0:"@,
            },
    {
        self.get("/TEMP_0:")
    }

    /// The path of the other track's exchange file.
    pub fn jwc_x_path(&self) -> (r: Result<String, ArgError>)
        ensures
            match suffix_after(self.tokens(), "/TEMP_X:"@) {
                Some(v) => r is Ok && r->Ok_0@ == v,
                None => r is Err && r->Err_0.kind == ArgErrorKind::NotGiven && r->Err_0.key@
                    == "/TEMP_X:"@,
            },
    {
        self.get("/TEMP_X:")
    }

    /// The output map name; empty when not given.
    pub fn map_name(&self) -> (r: String)
        ensures
            match suffix_after(self.tokens(), "/出力ファイル名:"@) {
                Some(v) => r@ == v,
                None => r@ == Seq::<char>::empty(),
            },
    {
        match self.find_suffix("/出力ファイル名:") {
            Some(v) => v,
            None => {
                let e: String = String::new();
                e
            },
        }
    }
}

/// A radius at least this large is drawn as a straight line: the host
/// cannot place so distant a center meaningfully.
pub const RADIUS_DRAW_LIMIT: i64 = 10_000_000_000_000_000;

/// The numerator factor converting fixed-point radians to fixed-point
/// degrees: 180 times `SCALE`.
pub const DEG_NUMER: i64 = 18_000_000_000_000;

/// Fixed-point radians as fixed-point degrees, rounded.
pub open spec fn deg_of(rad: int) -> int {
    div_round(rad * DEG_NUMER, PI_UNITS as int)
}

/// Fixed-point radians as fixed-point degrees, executed wide.
fn deg_units(rad: i64) -> (r: i128)
    ensures
        r == deg_of(rad as int),
{
    proof {
        assert(-DIV_ARG_MAX <= rad as int * DEG_NUMER <= DIV_ARG_MAX) by (nonlinear_arith)
            requires
                -9_223_372_036_854_775_808 <= rad as int <= 9_223_372_036_854_775_807,
        ;
    }
    div_round_i128((rad as i128) * (DEG_NUMER as i128), PI_UNITS as i128)
}

/// The exchange-file line one stroke becomes: an arc of a reasonable
/// radius is a `ci` record of center, absolute radius, and the two
/// central angles in degrees in ascending order; anything else is a
/// plain line record of the two endpoints.
pub open spec fn jwc_line(s: Stroke) -> Seq<char> {
    match s.arc {
        Some(g) => {
            if -RADIUS_DRAW_LIMIT < g.radius.0 < RADIUS_DRAW_LIMIT {
                let ra = if g.radius.0 >= 0 {
                    g.radius.0 as int
                } else {
                    -g.radius.0 as int
                };
                let d0 = deg_of(g.a0.0 as int);
                let d1 = deg_of(g.a1.0 as int);
                let lo = if d0 < d1 {
                    d0
                } else {
                    d1
                };
                let hi = if d0 < d1 {
                    d1
                } else {
                    d0
                };
                "ci "@ + fmt_scaled(g.center.0 as int) + " "@ + fmt_scaled(g.center.1 as int)
                    + " "@ + fmt_scaled(ra) + " "@ + fmt_scaled(lo) + " "@ + fmt_scaled(hi)
            } else {
                fmt_scaled(s.p0.0 as int) + " "@ + fmt_scaled(s.p0.1 as int) + " "@ + fmt_scaled(
                    s.p1.0 as int,
                ) + " "@ + fmt_scaled(s.p1.1 as int)
            }
        },
        None => fmt_scaled(s.p0.0 as int) + " "@ + fmt_scaled(s.p0.1 as int) + " "@ + fmt_scaled(
            s.p1.0 as int,
        ) + " "@ + fmt_scaled(s.p1.1 as int),
    }
}

/// Renders one stroke as its exchange-file line.
pub fn stroke_line(s: &Stroke) -> (r: String)
    ensures
        r@ == jwc_line(*s),
{
    proof {
        reveal_strlit("ci ");
        reveal_strlit(" ");
    }
    let mut line: String = String::new();
    match &s.arc {
        Some(g) => {
            if -RADIUS_DRAW_LIMIT < g.radius.0 && g.radius.0 < RADIUS_DRAW_LIMIT {
                let ra: i64 = if g.radius.0 >= 0 {
                    g.radius.0
                } else {
                    -g.radius.0
                };
                let d0: i128 = deg_units(g.a0.0);
                let d1: i128 = deg_units(g.a1.0);
                let lo: i128 = if d0 < d1 {
                    d0
                } else {
                    d1
                };
                let hi: i128 = if d0 < d1 {
                    d1
                } else {
                    d0
                };
                proof {
                    lemma_div_round_le(g.a0.0 as int * DEG_NUMER, DIV_ARG_MAX as int,
                        PI_UNITS as int);
                    lemma_div_round_le(g.a1.0 as int * DEG_NUMER, DIV_ARG_MAX as int,
                        PI_UNITS as int);
                    assert(-DIV_ARG_MAX <= g.a0.0 as int * DEG_NUMER <= DIV_ARG_MAX
                        && -DIV_ARG_MAX <= g.a1.0 as int * DEG_NUMER <= DIV_ARG_MAX)
                        by (nonlinear_arith)
                        requires
                            -9_223_372_036_854_775_808 <= g.a0.0 as int
                                <= 9_223_372_036_854_775_807,
                            -9_223_372_036_854_775_808 <= g.a1.0 as int
                                <= 9_223_372_036_854_775_807,
                    ;
                }
                line.append("ci ");
                push_scaled(&mut line, g.center.0);
                line.append(" ");
                push_scaled(&mut line, g.center.1);
                line.append(" ");
                push_scaled(&mut line, ra);
                line.append(" ");
                push_scaled_wide(&mut line, lo);
                line.append(" ");
                push_scaled_wide(&mut line, hi);
                proof {
                    assert(line@ =~= jwc_line(*s));
                }
                return line;
            }
        },
        None => {
        },
    }
    push_scaled(&mut line, s.p0.0);
    line.append(" ");
    push_scaled(&mut line, s.p0.1);
    line.append(" ");
    push_scaled(&mut line, s.p1.0);
    line.append(" ");
    push_scaled(&mut line, s.p1.1);
    proof {
        assert(line@ =~= jwc_line(*s));
    }
    line
}

/// Renders a whole drawn curve as its exchange-file lines, one stroke
/// each, in order.
pub fn spiral_lines(spiral: &Spiral) -> (r: Vec<String>)
    ensures
        r.len() == spiral.0.len(),
        forall|i: int| 0 <= i < r.len() ==> (#[trigger] r[i])@ == jwc_line(spiral.0[i]),
{
    let n: usize = spiral.0.len();
    let mut out: Vec<String> = Vec::new();
    let mut i: usize = 0;
    while i < n
        invariant
            n == spiral.0.len(),
            0 <= i <= n,
            out.len() == i,
            forall|j: int| 0 <= j < i ==> (#[trigger] out[j])@ == jwc_line(spiral.0[j]),
        decreases n - i,
    {
        let line: String = stroke_line(&spiral.0[i]);
        out.push(line);
        i = i + 1;
    }
    out
}

} // verus!
