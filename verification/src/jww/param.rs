//! The host-plugin parameter set keyed by `FUNC`: the drawing function,
//! the optional radii `R1` and `R2`, the whole-meter length `TCL`, the
//! sampling step `DX`, and the exchange file `FILE`.

use crate::agent::bat::{
    arg_pairs, lookup, pairs_view, ArgError, ArgErrorKind, Args,
};
use crate::decimal::{parse_scaled, parse_units, ParseOutcome, PARSE_MAX};
use crate::fixed::SCALE;
use crate::text::str_eq;
use vstd::prelude::*;

verus! {

/// The sampling step used when `DX` is not given: one tenth of a meter.
pub const DX_DEFAULT: i64 = 10_000_000_000;

/// The transition-curve function the plugin can draw.
#[derive(Debug, Clone, Copy, PartialEq, Eq, Structural)]
pub enum TcFunc {
    /// Half-wavelength sine diminishment.
    Sin,
    /// Straight-line diminishment: a clothoid.
    Linear,
}

/// The function a `FUNC` value names, if any.
pub open spec fn tc_func_of(v: Seq<char>) -> Option<TcFunc> {
    if v == "sin"@ {
        Some(TcFunc::Sin)
    } else if v == "linear"@ {
        Some(TcFunc::Linear)
    } else {
        None
    }
}

impl TcFunc {
    /// Reads the function from its `FUNC` value.
    pub fn parse(s: &str) -> (r: Option<TcFunc>)
        ensures
            r == tc_func_of(s@),
    {
        if str_eq(s, "sin") {
            Some(TcFunc::Sin)
        } else if str_eq(s, "linear") {
            Some(TcFunc::Linear)
        } else {
            None
        }
    }

    /// The function's Japanese name, as drawn into the exchange file.
    pub fn to_string(&self) -> (r: &'static str)
        ensures
            self is Sin ==> r@ == "サイン半波長逓減"@,
            self is Linear ==> r@ == "直線逓減"@,
    {
        match self {
            TcFunc::Sin => "サイン半波長逓減",
            TcFunc::Linear => "直線逓減",
        }
    }
}

/// A value read as a whole number of meters, in fixed-point units:
/// `None` unless it parses, is whole, and fits.
pub open spec fn whole_meters_of(v: Seq<char>) -> Option<int> {
    match parse_scaled(v) {
        None => None,
        Some(x) => if -PARSE_MAX <= x <= PARSE_MAX && x % (SCALE as int) == 0 {
            Some(x)
        } else {
            None
        },
    }
}

/// A value read as any representable fixed-point number: `None` unless
/// it parses and fits.
pub open spec fn numeric_of(v: Seq<char>) -> Option<int> {
    match parse_scaled(v) {
        None => None,
        Some(x) => if -PARSE_MAX <= x <= PARSE_MAX {
            Some(x)
        } else {
            None
        },
    }
}

/// Reads a value as a whole number of meters.
fn parse_whole_meters(s: &str) -> (r: Option<i64>)
    ensures
        match whole_meters_of(s@) {
            Some(x) => r is Some && r->Some_0 == x,
            None => r is None,
        },
{
    match parse_units(s) {
        ParseOutcome::Value(x) => {
            let rem: i64 = whole_remainder(x);
            if rem == 0 {
                Some(x)
            } else {
                None
            }
        },
        ParseOutcome::TooLarge => None,
        ParseOutcome::NotNumber => None,
    }
}

/// The remainder of a value against whole meters.
fn whole_remainder(x: i64) -> (r: i64)
    ensures
        r == x as int % (SCALE as int),
{
    if x >= 0 {
        let m: u64 = (x as u64) % (SCALE as u64);
        proof {
            vstd::arithmetic::div_mod::lemma_fundamental_div_mod(x as int, SCALE as int);
            vstd::arithmetic::div_mod::lemma_fundamental_div_mod_converse_mod(
                x as int,
                SCALE as int,
                ((x as u64) / (SCALE as u64)) as int,
                m as int,
            );
        }
        m as i64
    } else {
        let m: u64 = ((-(x as i128)) as u64) % (SCALE as u64);
        proof {
            let q = ((-(x as i128)) as u64) / (SCALE as u64);
            vstd::arithmetic::div_mod::lemma_fundamental_div_mod(-(x as int), SCALE as int);
            if m == 0 {
                vstd::arithmetic::div_mod::lemma_fundamental_div_mod_converse_mod(
                    x as int,
                    SCALE as int,
                    -(q as int),
                    0,
                );
            } else {
                vstd::arithmetic::div_mod::lemma_fundamental_div_mod_converse_mod(
                    x as int,
                    SCALE as int,
                    -(q as int) - 1,
                    SCALE - m as int,
                );
            }
        }
        if m == 0 {
            0
        } else {
            SCALE - (m as i64)
        }
    }
}

/// The transition-curve drawing parameters of the host plugin.
#[derive(Debug)]
pub struct Tc {
    /// The drawing function.
    pub func: TcFunc,
    /// First radius, in fixed-point meters; absent means straight.
    pub r1: Option<i64>,
    /// Second radius, in fixed-point meters; absent means straight.
    pub r2: Option<i64>,
    /// The curve length, a whole number of meters in fixed-point units.
    pub tcl: i64,
    /// The sampling step, in fixed-point meters.
    pub dx: i64,
}

impl Tc {
    /// Reads the drawing parameters: the radii and the step quietly fall
    /// back (to straight and to the default step) when absent or
    /// unreadable, the length must be given as a whole number.
    pub fn parse(func: TcFunc, args: &Args) -> (r: Result<Tc, ArgError>)
        ensures
            r is Ok <==> (match lookup(pairs_view(args.pairs@), "TCL"@) {
                Some(v) => whole_meters_of(v) is Some,
                None => false,
            }),
            r is Ok ==> {
                let t = r->Ok_0;
                let pv = pairs_view(args.pairs@);
                &&& t.func == func
                &&& t.r1 == opt_whole(pv, "R1"@)
                &&& t.r2 == opt_whole(pv, "R2"@)
                &&& Some(t.tcl as int) == whole_meters_of(lookup(pv, "TCL"@)->Some_0)
                &&& t.dx as int == (match lookup(pv, "DX"@) {
                    Some(v) => match numeric_of(v) {
                        Some(x) => x,
                        None => DX_DEFAULT as int,
                    },
                    None => DX_DEFAULT as int,
                })
            },
            r is Err ==> r->Err_0.key@ == "TCL"@ && r->Err_0.kind == (
            match lookup(pairs_view(args.pairs@), "TCL"@) {
                None => ArgErrorKind::Missing,
                Some(_) => ArgErrorKind::NotInteger,
            }),
    {
        let r1: Option<i64> = match args.get_str("R1") {
            Ok(v) => parse_whole_meters(v),
            Err(_) => None,
        };
        let r2: Option<i64> = match args.get_str("R2") {
            Ok(v) => parse_whole_meters(v),
            Err(_) => None,
        };
        let tcl: i64 = match args.get_str("TCL") {
            Ok(v) => match parse_whole_meters(v) {
                Some(x) => x,
                None => {
                    return Err(ArgError::new(ArgErrorKind::NotInteger, "TCL"));
                },
            },
            Err(e) => {
                return Err(e);
            },
        };
        let dx: i64 = match args.get_str("DX") {
            Ok(v) => match parse_units(v) {
                ParseOutcome::Value(x) => x,
                ParseOutcome::TooLarge => DX_DEFAULT,
                ParseOutcome::NotNumber => DX_DEFAULT,
            },
            Err(_) => DX_DEFAULT,
        };
        Ok(Tc { func, r1, r2, tcl, dx })
    }
}

/// The optional whole-meter value of argument `key`: `None` when
/// absent or unreadable.
pub open spec fn opt_whole(pairs: Seq<(Seq<char>, Seq<char>)>, key: Seq<char>) -> Option<i64> {
    match lookup(pairs, key) {
        None => None,
        Some(v) => match whole_meters_of(v) {
            Some(x) => Some(x as i64),
            None => None,
        },
    }
}

/// Which feature the plugin should run, with that feature's own
/// parameter outcome.
#[derive(Debug)]
pub enum Func {
    /// Draw a transition curve.
    Tc(Result<Tc, ArgError>),
}

/// The host plugin's whole parameter set: the feature and the exchange
/// file it writes to.
#[derive(Debug)]
pub struct Param {
    /// The feature to run, with its parameters.
    pub func: Func,
    /// The path of the exchange file.
    pub file: String,
}

impl Param {
    /// Reads the whole command line: `FUNC` picks the feature, `FILE`
    /// names the exchange file, and the feature's own parameters follow.
    /// A missing or unknown `FUNC`, or a missing `FILE`, fails here; a
    /// fault inside the feature's parameters is carried inside `Func`.
    pub fn parse(args: &Vec<String>) -> (r: Result<Param, ArgError>)
        ensures
            ({
                let pv = arg_pairs(args@.map_values(|a: String| a@));
                match lookup(pv, "FUNC"@) {
                    None => r is Err && r->Err_0.kind == ArgErrorKind::Missing && r->Err_0.key@
                        == "FUNC"@,
                    Some(fv) => if tc_func_of(fv) is None {
                        r is Err && r->Err_0.kind == ArgErrorKind::BadFunc && r->Err_0.key@
                            == "FUNC"@
                    } else {
                        match lookup(pv, "FILE"@) {
                            None => r is Err && r->Err_0.kind == ArgErrorKind::Missing
                                && r->Err_0.key@ == "FILE"@,
                            Some(file) => r is Ok && r->Ok_0.file@ == file,
                        }
                    },
                }
            }),
    {
        let parsed: Args = Args::parse(args);
        let func_v: &str = match parsed.get_str("FUNC") {
            Ok(v) => v,
            Err(e) => {
                return Err(e);
            },
        };
        let func: TcFunc = match TcFunc::parse(func_v) {
            Some(f) => f,
            None => {
                return Err(ArgError::new(ArgErrorKind::BadFunc, "FUNC"));
            },
        };
        let file: String = match parsed.get_str("FILE") {
            Ok(v) => v.to_owned(),
            Err(e) => {
                return Err(e);
            },
        };
        let tc: Result<Tc, ArgError> = Tc::parse(func, &parsed);
        Ok(Param { func: Func::Tc(tc), file })
    }
}

} // verus!
