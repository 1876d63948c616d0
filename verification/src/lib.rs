//! A rail-design library for a CAD external-transform plugin: it turns
//! a start curvature, an end curvature, a curve length and a starting
//! pose into the ordered strokes of a transition (easement) curve, with
//! the command-line reading and the exchange-file text around it.
//!
//! All scalar quantities are fixed-point counts of `1 / fixed::SCALE`
//! base units, so every computation here is exact integer arithmetic
//! with stated rounding.

pub mod agent;
pub mod decimal;
pub mod fixed;
pub mod jww;
pub mod make;
pub mod text;
pub mod transition;
pub mod trig;

use crate::agent::bat::{ArgError, ArgErrorKind};
use crate::decimal::parse_scaled;
use crate::jww::{jwc_line, spiral_lines, suffix_after};
use crate::transition::canvas::{Point, Spiral};
use crate::transition::curve::{recip_scaled, Curvature, Diminish, Subtension, Tangential};
use crate::transition::distance::Distance;
use crate::transition::param::Param;
use crate::transition::{plot, plot_post};
use vstd::prelude::*;

verus! {

/// What the plugin decided to do, with everything the file writer
/// needs.
pub enum Outcome {
    /// A transition curve was drawn: its exchange-file lines and the
    /// success notice.
    Drawn {
        /// One line per stroke.
        lines: Vec<String>,
        /// The notice to append.
        message: String,
    },
    /// The track check ran; it only reports its state.
    Track {
        /// The check's report.
        message: String,
    },
    /// The track export was chosen; the export itself needs the file
    /// system.
    Export,
}

/// The external-transform plugin: the raw arguments and the decisions
/// taken on them.
pub struct Plugin {
    /// The raw command-line arguments.
    pub args: jww::Args,
}

/// The curve length the `/TCL:` argument carries, where it parses.
pub open spec fn jww_tcl_val(tokens: Seq<Seq<char>>) -> int {
    match suffix_after(tokens, "/TCL:"@) {
        Some(v) => match parse_scaled(v) {
            Some(x) => x,
            None => 0,
        },
        None => 0,
    }
}

/// The curvature a `/R0:`-style argument carries: straight when absent.
pub open spec fn jww_curv_val(tokens: Seq<Seq<char>>, pfx: Seq<char>) -> int {
    match suffix_after(tokens, pfx) {
        Some(v) => match parse_scaled(v) {
            Some(x) => recip_scaled(x),
            None => 0,
        },
        None => 0,
    }
}

/// Whether a `/R0:`-style argument is faulty: present but no number,
/// zero, or out of the representable radii.
pub open spec fn curv_fault(tokens: Seq<Seq<char>>, pfx: Seq<char>) -> bool {
    match suffix_after(tokens, pfx) {
        None => false,
        Some(v) => match parse_scaled(v) {
            None => true,
            Some(x) => x == 0 || !(transition::curve::RADIUS_MIN <= x
                <= transition::curve::RADIUS_MAX || -transition::curve::RADIUS_MAX <= x
                <= -transition::curve::RADIUS_MIN),
        },
    }
}

/// The fault of a faulty `/R0:`-style argument.
pub open spec fn curv_fault_kind(tokens: Seq<Seq<char>>, pfx: Seq<char>) -> ArgErrorKind {
    match suffix_after(tokens, pfx) {
        None => ArgErrorKind::Missing,
        Some(v) => match parse_scaled(v) {
            None => ArgErrorKind::NotNumber,
            Some(x) => if x == 0 {
                ArgErrorKind::ZeroValue
            } else {
                ArgErrorKind::OutOfRange
            },
        },
    }
}

/// Whether the `/TCL:` argument cannot even be read: missing, no
/// number, or beyond the largest transition length in magnitude.  A
/// non-positive value reads fine and is rejected where the curve is
/// drawn.
pub open spec fn tcl_fault(tokens: Seq<Seq<char>>) -> bool {
    match suffix_after(tokens, "/TCL:"@) {
        None => true,
        Some(v) => match parse_scaled(v) {
            None => true,
            Some(x) => !(-transition::curve::TCL_MAX <= x <= transition::curve::TCL_MAX),
        },
    }
}

/// Everything that keeps `draw_transition` from drawing: an unreadable
/// radius or length, or a length that is not positive.
pub open spec fn draw_fault(tokens: Seq<Seq<char>>) -> bool {
    ||| curv_fault(tokens, "/R0:"@)
    ||| curv_fault(tokens, "/R1:"@)
    ||| tcl_fault(tokens)
    ||| jww_tcl_val(tokens) <= 0
}

/// The parameter set `draw_transition` builds from the arguments.
pub open spec fn drawn_param(tokens: Seq<Seq<char>>, d: Diminish) -> Param {
    Param {
        diminish: d,
        k0: Curvature { 0: jww_curv_val(tokens, "/R0:"@) as i64 },
        k1: Curvature { 0: jww_curv_val(tokens, "/R1:"@) as i64 },
        l0: Distance { 0: 0 },
        tcl: Subtension { 0: jww_tcl_val(tokens) as i64 },
        p0: Point { 0: 0, 1: 0 },
        t0: Tangential { 0: 0 },
    }
}

impl Plugin {
    /// A plugin over the given arguments.
    pub fn new(args: jww::Args) -> (r: Plugin)
        ensures
            r.args == args,
    {
        Plugin { args }
    }

    /// Decides what to do: a `/TRANSITION` argument draws the curve;
    /// otherwise the track feature runs, checking or exporting as its
    /// value says.
    pub fn routing(&self) -> (r: Result<Outcome, ArgError>)
        ensures
            (match suffix_after(self.args.tokens(), "/TRANSITION"@) {
                Some(v) => v == ":1"@ || v == ":2"@,
                None => false,
            }) ==> (r is Ok ==> r->Ok_0 is Drawn) && (r is Err <==> draw_fault(
                self.args.tokens(),
            )),
            (suffix_after(self.args.tokens(), "/TRANSITION"@) is None) ==> r is Ok
                && r->Ok_0 is Export,
    {
        match self.args.transition() {
            Some(d) => {
                match self.draw_transition(&d) {
                    Ok((lines, message)) => Ok(Outcome::Drawn { lines, message }),
                    Err(e) => Err(e),
                }
            },
            None => {
                proof {
                    reveal_strlit("export");
                    reveal_strlit("0");
                    reveal_strlit("x");
                }
                match self.args.track() {
                    Some(number) => {
                        proof {
                            assert("export"@.len() == 6);
                            assert("0"@.len() == 1);
                            assert("x"@.len() == 1);
                        }
                        if text::str_eq(number, "0") || text::str_eq(number, "x") {
                            match self.check_track(number) {
                                Ok(message) => Ok(Outcome::Track { message }),
                                Err(e) => Err(e),
                            }
                        } else if text::str_eq(number, "export") {
                            Ok(Outcome::Export)
                        } else {
                            Err(ArgError::new(ArgErrorKind::BadTrack, ""))
                        }
                    },
                    None => Err(ArgError::new(ArgErrorKind::NoFeature, "")),
                }
            },
        }
    }

    /// Draws the transition curve the arguments describe and renders it
    /// as exchange-file lines, with the success notice naming the
    /// diminish law.
    pub fn draw_transition(&self, diminish: &Diminish) -> (r: Result<
        (Vec<String>, String),
        ArgError,
    >)
        ensures
            r is Err <==> draw_fault(self.args.tokens()),
            r is Err && curv_fault(self.args.tokens(), "/R0:"@) ==> r->Err_0.kind
                == curv_fault_kind(self.args.tokens(), "/R0:"@) && r->Err_0.key@ == "R0"@,
            r is Err && !curv_fault(self.args.tokens(), "/R0:"@) && curv_fault(
                self.args.tokens(),
                "/R1:"@,
            ) ==> r->Err_0.kind == curv_fault_kind(self.args.tokens(), "/R1:"@) && r->Err_0.key@
                == "R1"@,
            r is Err && !curv_fault(self.args.tokens(), "/R0:"@) && !curv_fault(
                self.args.tokens(),
                "/R1:"@,
            ) ==> r->Err_0.key@ == "TCL"@,
            r is Ok ==> (exists|sp: Spiral|
                {
                    &&& #[trigger] plot_post(drawn_param(self.args.tokens(), *diminish), sp)
                    &&& r->Ok_0.0.len() == sp.0.len()
                    &&& forall|i: int|
                        0 <= i < sp.0.len() ==> (#[trigger] r->Ok_0.0[i])@ == jwc_line(sp.0[i])
                }),
            r is Ok ==> (diminish is Sine ==> r->Ok_0.1@ == "サイン半波長逓減曲線を描画しました"@)
                && (diminish is Linear ==> r->Ok_0.1@ == "直線逓減（クロソイド）を描画しました"@),
    {
        let k0: Curvature = match self.args.curvature(0) {
            Ok(k) => k,
            Err(e) => {
                return Err(e);
            },
        };
        let k1: Curvature = match self.args.curvature(1) {
            Ok(k) => k,
            Err(e) => {
                return Err(e);
            },
        };
        let l0: Distance = self.args.distance0();
        let tcl: Subtension = match self.args.tcl() {
            Ok(t) => t,
            Err(e) => {
                return Err(e);
            },
        };
        let p0: Point = self.args.p0();
        let t0: Tangential = self.args.t0();
        let param: Param = Param::new(*diminish, k0, k1, l0, tcl, p0, t0);
        let spiral: Spiral = match plot(&param) {
            Ok(sp) => sp,
            Err(_) => {
                return Err(ArgError::new(ArgErrorKind::NotPositive, "TCL"));
            },
        };
        let lines: Vec<String> = spiral_lines(&spiral);
        proof {
            assert(param == drawn_param(self.args.tokens(), *diminish));
        }
        let name: &str = match diminish {
            Diminish::Sine => "サイン半波長逓減曲線を描画しました",
            Diminish::Linear => "直線逓減（クロソイド）を描画しました",
        };
        let message: String = name.to_owned();
        Ok((lines, message))
    }

    /// The track check: not carried further in this snapshot, it only
    /// reports so.
    pub fn check_track(&self, number: &str) -> (r: Result<String, ArgError>)
        ensures
            r is Ok,
            r->Ok_0@ == "todo"@,
    {
        let _ = number;
        Ok(String::from_str("todo"))
    }

    /// Turns an outcome into the exchange file to write: the drawn
    /// lines with the notice at the end, a bare notice, nothing for an
    /// export, or the error line alone.
    pub fn show_result(&self, result: Result<Outcome, ArgError>) -> (r: Result<
        (String, Vec<String>),
        ArgError,
    >)
        ensures
            r is Ok ==> (suffix_after(self.args.tokens(), "/TEMP:"@) matches Some(p) && r->Ok_0.0@
                == p),
            r is Err ==> suffix_after(self.args.tokens(), "/TEMP:"@) is None,
            r is Ok ==> (match result {
                Ok(Outcome::Drawn { lines, message }) => {
                    &&& r->Ok_0.1@.len() == lines@.len() + 1
                    &&& (forall|i: int|
                        0 <= i < lines@.len() ==> (#[trigger] r->Ok_0.1@[i])@ == lines@[i]@)
                    &&& r->Ok_0.1@.last()@ == "h#"@ + message@
                },
                Ok(Outcome::Track { message }) => r->Ok_0.1@.len() == 1 && r->Ok_0.1@[0]@ == "h#"@
                    + message@,
                Ok(Outcome::Export) => r->Ok_0.1@.len() == 0,
                Err(e) => r->Ok_0.1@.len() == 1 && r->Ok_0.1@[0]@ == "he"@ + e.key@
                    + agent::bat::message_tail(e.kind),
            }),
    {
        let path: String = match self.args.jwc_path() {
            Ok(p) => p,
            Err(e) => {
                return Err(e);
            },
        };
        let mut lines: Vec<String>;
        match result {
            Ok(Outcome::Drawn { lines: drawn, message }) => {
                lines = drawn;
                let mut head: String = String::from_str("h#");
                head.append(message.as_str());
                lines.push(head);
            },
            Ok(Outcome::Track { message }) => {
                lines = Vec::new();
                let mut head: String = String::from_str("h#");
                head.append(message.as_str());
                lines.push(head);
            },
            Ok(Outcome::Export) => {
                lines = Vec::new();
            },
            Err(e) => {
                lines = Vec::new();
                let mut head: String = String::from_str("he");
                let m: String = e.message();
                head.append(m.as_str());
                lines.push(head);
            },
        }
        Ok((path, lines))
    }
}

} // verus!
