//! Command-line arguments of the plugin, as key-value pairs.
//!
//! Each token of the form `/KEY:VALUE` contributes one pair; tokens
//! without a colon are ignored.  When a key is given twice the later
//! token wins, as a map built from the pairs would have it.

use crate::decimal::{parse_scaled, parse_units, ParseOutcome, PARSE_MAX};
use crate::text::{arg_pair, split_arg, str_eq};
use crate::transition::curve::{RADIUS_MAX, RADIUS_MIN, TCL_MAX};
use vstd::prelude::*;

verus! {

/// What went wrong with one argument.
#[derive(Debug, Clone, Copy, PartialEq, Eq, Structural)]
pub enum ArgErrorKind {
    /// The key was not given at all.
    Missing,
    /// The value is not a decimal number.
    NotNumber,
    /// The value is zero where zero is meaningless.
    ZeroValue,
    /// The value is a number the fixed-point ranges cannot hold.
    OutOfRange,
    /// The value is not greater than zero.
    NotPositive,
    /// The diminish-function argument names no known function.
    BadDiminish,
    /// The value is not a whole number.
    NotInteger,
    /// The function argument names no known function.
    BadFunc,
    /// The prefix appears in no token.
    NotGiven,
    /// The track argument carries an invalid value.
    BadTrack,
    /// No feature was named on the command line.
    NoFeature,
    /// The exchange file carries no project path.
    NoProjectPath,
    /// The project has not been saved under a name.
    UnsavedProject,
    /// The project path has no parent folder to write next to.
    NoParentDir,
}

/// A faulty argument: which fault, and the key it concerns.
#[derive(Debug, Clone)]
pub struct ArgError {
    /// The fault.
    pub kind: ArgErrorKind,
    /// The key concerned; empty for `BadDiminish`.
    pub key: String,
}

impl ArgError {
    /// The fault for `key`, of the given kind.
    pub fn new(kind: ArgErrorKind, key: &str) -> (r: ArgError)
        ensures
            r.kind == kind,
            r.key@ == key@,
    {
        ArgError { kind, key: key.to_owned() }
    }

    /// The user-facing message, as the host plugin prints it.
    pub fn message(&self) -> (r: String)
        ensures
            r@ == self.key@ + message_tail(self.kind),
    {
        let tail: &str = match self.kind {
            ArgErrorKind::Missing => "を指定してください",
            ArgErrorKind::NotNumber => "を数値で入力してください",
            ArgErrorKind::ZeroValue => "に0を指定できません",
            ArgErrorKind::OutOfRange => "に指定できない値です",
            ArgErrorKind::NotPositive => "に0より大きい値を入力してください",
            ArgErrorKind::BadDiminish => "緩和曲線関数に正しい値を入力してください",
            ArgErrorKind::NotInteger => "を整数で入力してください",
            ArgErrorKind::BadFunc => "の値が不正です",
            ArgErrorKind::NotGiven => "が指定されていません",
            ArgErrorKind::BadTrack => "trackの値が無効",
            ArgErrorKind::NoFeature => "機能の指定なし",
            ArgErrorKind::NoProjectPath => "JWC_TEMPファイルにパスが出力されていません",
            ArgErrorKind::UnsavedProject => "作業中のファイルに名前をつけて保存してください",
            ArgErrorKind::NoParentDir => " と同じフォルダに出力できません",
        };
        proof {
            reveal_strlit("を指定してください");
            reveal_strlit("を数値で入力してください");
            reveal_strlit("に0を指定できません");
            reveal_strlit("に指定できない値です");
            reveal_strlit("に0より大きい値を入力してください");
            reveal_strlit("緩和曲線関数に正しい値を入力してください");
            reveal_strlit("を整数で入力してください");
            reveal_strlit("の値が不正です");
            reveal_strlit("が指定されていません");
            reveal_strlit("trackの値が無効");
            reveal_strlit("機能の指定なし");
            reveal_strlit("JWC_TEMPファイルにパスが出力されていません");
            reveal_strlit("作業中のファイルに名前をつけて保存してください");
            reveal_strlit(" と同じフォルダに出力できません");
        }
        let mut m: String = self.key.clone();
        m.append(tail);
        m
    }
}

/// The message text that follows the key for each fault.
pub open spec fn message_tail(kind: ArgErrorKind) -> Seq<char> {
    match kind {
        ArgErrorKind::Missing => "を指定してください"@,
        ArgErrorKind::NotNumber => "を数値で入力してください"@,
        ArgErrorKind::ZeroValue => "に0を指定できません"@,
        ArgErrorKind::OutOfRange => "に指定できない値です"@,
        ArgErrorKind::NotPositive => "に0より大きい値を入力してください"@,
        ArgErrorKind::BadDiminish => "緩和曲線関数に正しい値を入力してください"@,
        ArgErrorKind::NotInteger => "を整数で入力してください"@,
        ArgErrorKind::BadFunc => "の値が不正です"@,
        ArgErrorKind::NotGiven => "が指定されていません"@,
        ArgErrorKind::BadTrack => "trackの値が無効"@,
        ArgErrorKind::NoFeature => "機能の指定なし"@,
        ArgErrorKind::NoProjectPath => "JWC_TEMPファイルにパスが出力されていません"@,
        ArgErrorKind::UnsavedProject => "作業中のファイルに名前をつけて保存してください"@,
        ArgErrorKind::NoParentDir => " と同じフォルダに出力できません"@,
    }
}

/// The key-value pairs that a sequence of command-line tokens
/// contributes, in order.
pub open spec fn arg_pairs(tokens: Seq<Seq<char>>) -> Seq<(Seq<char>, Seq<char>)>
    decreases tokens.len(),
{
    if tokens.len() == 0 {
        Seq::empty()
    } else {
        let rest = arg_pairs(tokens.drop_last());
        match arg_pair(tokens.last()) {
            Some(p) => rest.push(p),
            None => rest,
        }
    }
}

/// The value for `key` among `pairs`: the last pair with that key wins.
pub open spec fn lookup(pairs: Seq<(Seq<char>, Seq<char>)>, key: Seq<char>) -> Option<Seq<char>>
    decreases pairs.len(),
{
    if pairs.len() == 0 {
        None
    } else if pairs.last().0 == key {
        Some(pairs.last().1)
    } else {
        lookup(pairs.drop_last(), key)
    }
}

/// The parsed command-line arguments.
#[derive(Debug)]
pub struct Args {
    /// The key-value pairs, in token order.
    pub pairs: Vec<(String, String)>,
}

/// One argument's key and value.
pub struct ArgValue<'k, 'v>(pub &'k str, pub &'v str);

impl<'k, 'v> ArgValue<'k, 'v> {
    /// The plain text of the value.
    pub fn str(&self) -> (r: &'v str)
        ensures
            r@ == self.1@,
    {
        self.1
    }

    /// The key, for messages.
    pub fn key(&self) -> (r: &'k str)
        ensures
            r@ == self.0@,
    {
        self.0
    }

    /// The value as a fixed-point number: a fault when it is no decimal
    /// number or too large to represent.
    pub fn number(&self) -> (r: Result<i64, ArgError>)
        ensures
            number_outcome_matches(self.0@, self.1@, r),
    {
        match parse_units(self.1) {
            ParseOutcome::Value(x) => Ok(x),
            ParseOutcome::TooLarge => Err(ArgError::new(ArgErrorKind::OutOfRange, self.0)),
            ParseOutcome::NotNumber => Err(ArgError::new(ArgErrorKind::NotNumber, self.0)),
        }
    }
}

/// Whether `r` is the right outcome of reading `v` (for key `k`) as a
/// number: the value when it parses and fits, the not-a-number fault
/// when it does not parse, the range fault when it parses but cannot be
/// represented.
pub open spec fn number_outcome_matches(
    k: Seq<char>,
    v: Seq<char>,
    r: Result<i64, ArgError>,
) -> bool {
    match parse_scaled(v) {
        None => r is Err && r->Err_0.kind == ArgErrorKind::NotNumber && r->Err_0.key@ == k,
        Some(x) => if -PARSE_MAX <= x <= PARSE_MAX {
            r is Ok && r->Ok_0 == x
        } else {
            r is Err && r->Err_0.kind == ArgErrorKind::OutOfRange && r->Err_0.key@ == k
        },
    }
}

/// Whether `r` is the right outcome of reading the radius argument
/// `key`: absent is `None`, and a present value must be a representable
/// nonzero radius.
pub open spec fn radius_outcome_matches(
    pairs: Seq<(Seq<char>, Seq<char>)>,
    key: Seq<char>,
    r: Result<Option<i64>, ArgError>,
) -> bool {
    match lookup(pairs, key) {
        None => r is Ok && r->Ok_0 is None,
        Some(v) => match parse_scaled(v) {
            None => r is Err && r->Err_0.kind == ArgErrorKind::NotNumber && r->Err_0.key@ == key,
            Some(x) => if x == 0 {
                r is Err && r->Err_0.kind == ArgErrorKind::ZeroValue && r->Err_0.key@ == key
            } else if RADIUS_MIN <= x <= RADIUS_MAX || -RADIUS_MAX <= x <= -RADIUS_MIN {
                r is Ok && r->Ok_0 == Some(x as i64)
            } else {
                r is Err && r->Err_0.kind == ArgErrorKind::OutOfRange && r->Err_0.key@ == key
            },
        },
    }
}

/// Whether `r` is the right outcome of reading the length argument
/// `key`: it must be given, be a number, be positive, and fit the
/// largest transition length.
pub open spec fn length_outcome_matches(
    pairs: Seq<(Seq<char>, Seq<char>)>,
    key: Seq<char>,
    r: Result<i64, ArgError>,
) -> bool {
    match lookup(pairs, key) {
        None => r is Err && r->Err_0.kind == ArgErrorKind::Missing && r->Err_0.key@ == key,
        Some(v) => match parse_scaled(v) {
            None => r is Err && r->Err_0.kind == ArgErrorKind::NotNumber && r->Err_0.key@ == key,
            Some(x) => if !(-PARSE_MAX <= x <= PARSE_MAX) {
                r is Err && r->Err_0.kind == ArgErrorKind::OutOfRange && r->Err_0.key@ == key
            } else if x <= 0 {
                r is Err && r->Err_0.kind == ArgErrorKind::NotPositive && r->Err_0.key@ == key
            } else if x > TCL_MAX {
                r is Err && r->Err_0.kind == ArgErrorKind::OutOfRange && r->Err_0.key@ == key
            } else {
                r is Ok && r->Ok_0 == x as i64
            },
        },
    }
}

/// The view of the stored pairs as character sequences.
pub open spec fn pairs_view(pairs: Seq<(String, String)>) -> Seq<(Seq<char>, Seq<char>)> {
    pairs.map_values(|p: (String, String)| (p.0@, p.1@))
}

impl Args {
    /// Splits each token into its key-value pair.
    pub fn parse(args: &Vec<String>) -> (r: Args)
        ensures
            pairs_view(r.pairs@) == arg_pairs(args@.map_values(|a: String| a@)),
    {
        let ghost tokens = args@.map_values(|a: String| a@);
        let mut pairs: Vec<(String, String)> = Vec::new();
        let mut i: usize = 0;
        while i < args.len()
            invariant
                0 <= i <= args.len(),
                tokens == args@.map_values(|a: String| a@),
                pairs_view(pairs@) == arg_pairs(tokens.take(i as int)),
            decreases args.len() - i,
        {
            let ghost before = pairs_view(pairs@);
            match split_arg(&args[i]) {
                Some(p) => {
                    pairs.push(p);
                    proof {
                        assert(pairs_view(pairs@) =~= before.push((p.0@, p.1@)));
                    }
                },
                None => {
                },
            }
            proof {
                assert(tokens.take(i as int + 1).drop_last() =~= tokens.take(i as int));
                assert(tokens.take(i as int + 1).last() == tokens[i as int]);
                assert(tokens[i as int] == args@[i as int]@);
            }
            i = i + 1;
        }
        proof {
            assert(tokens.take(args.len() as int) =~= tokens);
        }
        Args { pairs }
    }

    /// The argument for `key`, or the missing-key fault.
    pub fn get<'s, 'k>(&'s self, key: &'k str) -> (r: Result<ArgValue<'k, 's>, ArgError>)
        ensures
            match lookup(pairs_view(self.pairs@), key@) {
                Some(v) => r is Ok && r->Ok_0.0@ == key@ && r->Ok_0.1@ == v,
                None => r is Err && r->Err_0.kind == ArgErrorKind::Missing && r->Err_0.key@
                    == key@,
            },
    {
        match self.find(key) {
            Some(v) => Ok(ArgValue(key, v.as_str())),
            None => Err(ArgError::new(ArgErrorKind::Missing, key)),
        }
    }

    /// The plain text for `key`, or the missing-key fault.
    pub fn get_str<'s>(&'s self, key: &str) -> (r: Result<&'s str, ArgError>)
        ensures
            match lookup(pairs_view(self.pairs@), key@) {
                Some(v) => r is Ok && r->Ok_0@ == v,
                None => r is Err && r->Err_0.kind == ArgErrorKind::Missing && r->Err_0.key@
                    == key@,
            },
    {
        match self.find(key) {
            Some(v) => Ok(v.as_str()),
            None => Err(ArgError::new(ArgErrorKind::Missing, key)),
        }
    }

    /// The track argument.
    pub fn track(&self) -> (r: Result<&str, ArgError>)
        ensures
            match lookup(pairs_view(self.pairs@), "TRACK"@) {
                Some(v) => r is Ok && r->Ok_0@ == v,
                None => r is Err && r->Err_0.kind == ArgErrorKind::Missing && r->Err_0.key@
                    == "TRACK"@,
            },
    {
        self.get_str("TRACK")
    }

    /// The transition argument.
    pub fn transition(&self) -> (r: Result<&str, ArgError>)
        ensures
            match lookup(pairs_view(self.pairs@), "TRANSITION"@) {
                Some(v) => r is Ok && r->Ok_0@ == v,
                None => r is Err && r->Err_0.kind == ArgErrorKind::Missing && r->Err_0.key@
                    == "TRANSITION"@,
            },
    {
        self.get_str("TRANSITION")
    }

    /// The path of the exchange file.
    pub fn temp_path(&self) -> (r: Result<&str, ArgError>)
        ensures
            match lookup(pairs_view(self.pairs@), "TEMP"@) {
                Some(v) => r is Ok && r->Ok_0@ == v,
                None => r is Err && r->Err_0.kind == ArgErrorKind::Missing && r->Err_0.key@
                    == "TEMP"@,
            },
    {
        self.get_str("TEMP")
    }

    /// The path of the own track's exchange file.
    pub fn temp_0_path(&self) -> (r: Result<&str, ArgError>)
        ensures
            match lookup(pairs_view(self.pairs@), "TEMP_0"@) {
                Some(v) => r is Ok && r->Ok_0@ == v,
                None => r is Err && r->Err_0.kind == ArgErrorKind::Missing && r->Err_0.key@
                    == "TEMP_0"@,
            },
    {
        self.get_str("TEMP_0")
    }

    /// The path of the other track's exchange file.
    pub fn temp_x_path(&self) -> (r: Result<&str, ArgError>)
        ensures
            match lookup(pairs_view(self.pairs@), "TEMP_X"@) {
                Some(v) => r is Ok && r->Ok_0@ == v,
                None => r is Err && r->Err_0.kind == ArgErrorKind::Missing && r->Err_0.key@
                    == "TEMP_X"@,
            },
    {
        self.get_str("TEMP_X")
    }

    /// The output map name; empty when not given.
    pub fn map_name(&self) -> (r: &str)
        ensures
            match lookup(pairs_view(self.pairs@), "出力ファイル名"@) {
                Some(v) => r@ == v,
                None => r@ == ""@,
            },
    {
        match self.get_str("出力ファイル名") {
            Ok(v) => v,
            Err(_) => "",
        }
    }

    /// The start radius, in fixed-point meters; absent means a straight
    /// tie-in.
    pub fn r0(&self) -> (r: Result<Option<i64>, ArgError>)
        ensures
            radius_outcome_matches(pairs_view(self.pairs@), "R0"@, r),
    {
        self.get_radius("R0")
    }

    /// The end radius, in fixed-point meters; absent means a straight
    /// tie-in.
    pub fn r1(&self) -> (r: Result<Option<i64>, ArgError>)
        ensures
            radius_outcome_matches(pairs_view(self.pairs@), "R1"@, r),
    {
        self.get_radius("R1")
    }

    /// The transition curve's length, in fixed-point meters.
    pub fn tcl(&self) -> (r: Result<i64, ArgError>)
        ensures
            length_outcome_matches(pairs_view(self.pairs@), "TCL"@, r),
    {
        let val = match self.get("TCL") {
            Ok(v) => v,
            Err(e) => {
                return Err(e);
            },
        };
        let x: i64 = match val.number() {
            Ok(x) => x,
            Err(e) => {
                return Err(e);
            },
        };
        if x <= 0 {
            return Err(ArgError::new(ArgErrorKind::NotPositive, "TCL"));
        }
        if x > TCL_MAX {
            return Err(ArgError::new(ArgErrorKind::OutOfRange, "TCL"));
        }
        Ok(x)
    }

    /// The radius for `key`: absent is fine, a non-number, zero, or a
    /// magnitude outside the representable radii is a fault.
    pub fn get_radius(&self, key: &str) -> (r: Result<Option<i64>, ArgError>)
        ensures
            radius_outcome_matches(pairs_view(self.pairs@), key@, r),
    {
        let val = match self.get(key) {
            Ok(v) => v,
            Err(_) => {
                return Ok(None);
            },
        };
        let x: i64 = match val.number() {
            Ok(x) => x,
            Err(e) => {
                return Err(e);
            },
        };
        if x == 0 {
            return Err(ArgError::new(ArgErrorKind::ZeroValue, key));
        }
        if x < 0 {
            if x > -RADIUS_MIN || x < -RADIUS_MAX {
                return Err(ArgError::new(ArgErrorKind::OutOfRange, key));
            }
        } else {
            if x < RADIUS_MIN || x > RADIUS_MAX {
                return Err(ArgError::new(ArgErrorKind::OutOfRange, key));
            }
        }
        Ok(Some(x))
    }

    /// The stored value for `key`, if any.
    fn find(&self, key: &str) -> (r: Option<&String>)
        ensures
            match lookup(pairs_view(self.pairs@), key@) {
                Some(v) => r is Some && r->Some_0@ == v,
                None => r is None,
            },
    {
        let n: usize = self.pairs.len();
        let mut i: usize = n;
        proof {
            assert(pairs_view(self.pairs@).take(n as int) =~= pairs_view(self.pairs@));
        }
        while i > 0
            invariant
                0 <= i <= n,
                n == self.pairs.len(),
                lookup(pairs_view(self.pairs@), key@) == lookup(
                    pairs_view(self.pairs@).take(i as int),
                    key@,
                ),
            decreases i,
        {
            i = i - 1;
            let hit: bool = str_eq(self.pairs[i].0.as_str(), key);
            proof {
                assert(pairs_view(self.pairs@).take(i as int + 1).last() == (
                self.pairs@[i as int].0@,
                self.pairs@[i as int].1@,
                ));
                assert(pairs_view(self.pairs@).take(i as int + 1).drop_last() =~= pairs_view(
                    self.pairs@,
                ).take(i as int));
            }
            if hit {
                return Some(&self.pairs[i].1);
            }
        }
        proof {
            assert(pairs_view(self.pairs@).take(0) =~= Seq::<(Seq<char>, Seq<char>)>::empty());
        }
        None
    }
}

} // verus!
