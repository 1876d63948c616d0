//! Reading the exchange file: the cached lines the host CAD wrote, and
//! the figure records among them.

use crate::agent::bat::{ArgError, ArgErrorKind};
use crate::decimal::{parse_scaled, parse_units, ParseOutcome};
use crate::jww::suffix_after;
use crate::agent::bve::rfind;
use crate::text::char_pos;
use vstd::prelude::*;

verus! {

/// The lines of an exchange file, as read from the host.
#[derive(Debug)]
pub struct Cache(pub Vec<String>);

/// The words of a line: the maximal runs of non-space characters.
pub open spec fn ws_split(s: Seq<char>) -> Seq<Seq<char>>
    decreases s.len(),
    via ws_split_decreases
{
    if s.len() == 0 {
        Seq::empty()
    } else if s[0] == ' ' {
        ws_split(s.drop_first())
    } else {
        let cp = char_pos(s, ' ');
        seq![s.take(cp)] + ws_split(s.skip(cp))
    }
}

#[via_fn]
proof fn ws_split_decreases(s: Seq<char>) {
    if s.len() > 0 && s[0] != ' ' {
        crate::text::lemma_char_pos(s, ' ');
    }
}

/// Splits a line into its words.
pub fn split_words(s: &str) -> (r: Vec<String>)
    ensures
        r@.map_values(|w: String| w@) == ws_split(s@),
    decreases s@.len(),
{
    let n: usize = s.unicode_len();
    if n == 0 {
        let out: Vec<String> = Vec::new();
        proof {
            assert(out@.map_values(|w: String| w@) =~= ws_split(s@));
        }
        return out;
    }
    let c0: char = s.get_char(0);
    if c0 == ' ' {
        let rest: &str = s.substring_char(1, n);
        proof {
            assert(rest@ =~= s@.drop_first());
        }
        return split_words(rest);
    }
    let mut cp: usize = 0;
    proof {
        crate::text::lemma_char_pos(s@, ' ');
    }
    while cp < n && s.get_char(cp) != ' '
        invariant
            n == s@.len(),
            0 <= cp <= n,
            forall|j: int| 0 <= j < cp ==> s@[j] != ' ',
        decreases n - cp,
    {
        cp = cp + 1;
    }
    proof {
        if cp < n {
            assert(char_pos(s@, ' ') == cp) by {
                if char_pos(s@, ' ') < cp {
                    assert(s@[char_pos(s@, ' ')] != ' ');
                }
                if char_pos(s@, ' ') > cp {
                    assert(s@[cp as int] != ' ');
                }
            }
        } else {
            assert(char_pos(s@, ' ') == n) by {
                if char_pos(s@, ' ') < n {
                    assert(s@[char_pos(s@, ' ')] != ' ');
                }
            }
        }
    }
    let word: &str = s.substring_char(0, cp);
    let rest: &str = s.substring_char(cp, n);
    proof {
        assert(word@ =~= s@.take(char_pos(s@, ' ')));
        assert(rest@ =~= s@.skip(char_pos(s@, ' ')));
    }
    let mut out: Vec<String> = Vec::new();
    out.push(word.to_owned());
    let mut tail: Vec<String> = split_words(rest);
    let ghost tview = tail@.map_values(|w: String| w@);
    let mut i: usize = 0;
    while i < tail.len()
        invariant
            0 <= i <= tail.len(),
            tview == tail@.map_values(|w: String| w@),
            out@.map_values(|w: String| w@) == seq![s@.take(char_pos(s@, ' '))] + tview.take(
                i as int,
            ),
        decreases tail.len() - i,
    {
        let w: String = tail[i].clone();
        let ghost before = out@.map_values(|w2: String| w2@);
        out.push(w);
        proof {
            assert(out@.map_values(|w2: String| w2@) =~= before.push(tview[i as int]));
            assert(before.push(tview[i as int]) =~= seq![s@.take(char_pos(s@, ' '))]
                + tview.take(i as int + 1));
        }
        i = i + 1;
    }
    proof {
        assert(tview.take(tail.len() as int) =~= tview);
        assert(out@.map_values(|w: String| w@) =~= ws_split(s@));
    }
    out
}

/// One figure record of the exchange file, with its coordinates in
/// fixed-point meters.
#[derive(Debug, Clone, Copy, PartialEq, Eq, Structural)]
pub enum Figure {
    /// A line segment: both endpoints.
    Straight {
        /// Start x.
        x0: i64,
        /// Start y.
        y0: i64,
        /// End x.
        x1: i64,
        /// End y.
        y1: i64,
    },
    /// A circular arc: center, radius, and the two central angles.
    Arc {
        /// Center x.
        cx: i64,
        /// Center y.
        cy: i64,
        /// Radius.
        r: i64,
        /// Central angle of the start.
        a0: i64,
        /// Central angle of the end.
        a1: i64,
    },
    /// A circle, ellipse or elliptic arc, not carried further.
    Ellipse,
    /// A block figure, not carried further.
    Block,
    /// A solid, not carried further.
    Solid,
}

/// The number a word denotes, where it parses and fits.
pub open spec fn word_num(v: Seq<char>) -> Option<int> {
    match parse_scaled(v) {
        None => None,
        Some(x) => if -crate::decimal::PARSE_MAX <= x <= crate::decimal::PARSE_MAX {
            Some(x)
        } else {
            None
        },
    }
}

/// What reading one line as a figure yields: the figure (or none for
/// an unrecognized line), or the kind of record whose words failed to
/// read as numbers.
pub open spec fn figure_of(line: Seq<char>) -> Result<Option<Figure>, Seq<char>> {
    let w = ws_split(line);
    if w.len() == 4 && line.len() > 0 && line[0] == ' ' {
        match (word_num(w[0]), word_num(w[1]), word_num(w[2]), word_num(w[3])) {
            (Some(x0), Some(y0), Some(x1), Some(y1)) => Ok(
                Some(
                    Figure::Straight {
                        x0: x0 as i64,
                        y0: y0 as i64,
                        x1: x1 as i64,
                        y1: y1 as i64,
                    },
                ),
            ),
            _ => Err("単線"@),
        }
    } else if w.len() >= 1 && w[0] == "ci"@ {
        if w.len() == 8 && w[6] == "1"@ && w[7] == "0"@ {
            match (word_num(w[1]), word_num(w[2]), word_num(w[3]), word_num(w[4]), word_num(
                w[5],
            )) {
                (Some(cx), Some(cy), Some(rr), Some(a0), Some(a1)) => Ok(
                    Some(
                        Figure::Arc {
                            cx: cx as i64,
                            cy: cy as i64,
                            r: rr as i64,
                            a0: a0 as i64,
                            a1: a1 as i64,
                        },
                    ),
                ),
                _ => Err("円弧"@),
            }
        } else {
            Ok(Some(Figure::Ellipse))
        }
    } else if w.len() >= 1 && w[0] == "BL"@ {
        Ok(Some(Figure::Block))
    } else if w.len() == 5 && w[0] == "sl"@ {
        Ok(Some(Figure::Solid))
    } else if w.len() >= 1 && w[0] == "se"@ {
        Ok(Some(Figure::Solid))
    } else {
        Ok(None)
    }
}

impl Figure {
    /// Reads one line as a figure record: four words on a line that
    /// starts with a space are a segment, a `ci` record with the unit
    /// flags is an arc, other `ci`, `BL`, `sl` and `se` records are
    /// kept only by kind, and any other line is no figure.  A segment
    /// or arc whose words are not numbers is a fault.
    pub fn parse(line: &str) -> (r: Result<Option<Figure>, ArgError>)
        ensures
            match figure_of(line@) {
                Ok(f) => r is Ok && r->Ok_0 == f,
                Err(k) => r is Err && r->Err_0.kind == ArgErrorKind::NotNumber && r->Err_0.key@
                    == k,
            },
    {
        proof {
            reveal_strlit("ci");
            reveal_strlit("BL");
            reveal_strlit("sl");
            reveal_strlit("se");
            reveal_strlit("1");
            reveal_strlit("0");
        }
        let words: Vec<String> = split_words(line);
        let n: usize = words.len();
        if n == 4 && line.unicode_len() > 0 && line.get_char(0) == ' ' {
            let x0 = match word_value(&words[0]) {
                Some(v) => v,
                None => {
                    return Err(ArgError::new(ArgErrorKind::NotNumber, "単線"));
                },
            };
            let y0 = match word_value(&words[1]) {
                Some(v) => v,
                None => {
                    return Err(ArgError::new(ArgErrorKind::NotNumber, "単線"));
                },
            };
            let x1 = match word_value(&words[2]) {
                Some(v) => v,
                None => {
                    return Err(ArgError::new(ArgErrorKind::NotNumber, "単線"));
                },
            };
            let y1 = match word_value(&words[3]) {
                Some(v) => v,
                None => {
                    return Err(ArgError::new(ArgErrorKind::NotNumber, "単線"));
                },
            };
            return Ok(Some(Figure::Straight { x0, y0, x1, y1 }));
        }
        if n >= 1 && crate::text::str_eq(words[0].as_str(), "ci") {
            if n == 8 && crate::text::str_eq(words[6].as_str(), "1") && crate::text::str_eq(
                words[7].as_str(),
                "0",
            ) {
                let cx = match word_value(&words[1]) {
                    Some(v) => v,
                    None => {
                        return Err(ArgError::new(ArgErrorKind::NotNumber, "円弧"));
                    },
                };
                let cy = match word_value(&words[2]) {
                    Some(v) => v,
                    None => {
                        return Err(ArgError::new(ArgErrorKind::NotNumber, "円弧"));
                    },
                };
                let rr = match word_value(&words[3]) {
                    Some(v) => v,
                    None => {
                        return Err(ArgError::new(ArgErrorKind::NotNumber, "円弧"));
                    },
                };
                let a0 = match word_value(&words[4]) {
                    Some(v) => v,
                    None => {
                        return Err(ArgError::new(ArgErrorKind::NotNumber, "円弧"));
                    },
                };
                let a1 = match word_value(&words[5]) {
                    Some(v) => v,
                    None => {
                        return Err(ArgError::new(ArgErrorKind::NotNumber, "円弧"));
                    },
                };
                return Ok(Some(Figure::Arc { cx, cy, r: rr, a0, a1 }));
            }
            return Ok(Some(Figure::Ellipse));
        }
        if n >= 1 && crate::text::str_eq(words[0].as_str(), "BL") {
            return Ok(Some(Figure::Block));
        }
        if n == 5 && crate::text::str_eq(words[0].as_str(), "sl") {
            return Ok(Some(Figure::Solid));
        }
        if n >= 1 && crate::text::str_eq(words[0].as_str(), "se") {
            return Ok(Some(Figure::Solid));
        }
        Ok(None)
    }
}

/// The number a word denotes, executed.
fn word_value(w: &String) -> (r: Option<i64>)
    ensures
        match word_num(w@) {
            Some(x) => r is Some && r->Some_0 == x,
            None => r is None,
        },
{
    match parse_units(w.as_str()) {
        ParseOutcome::Value(x) => Some(x),
        ParseOutcome::TooLarge => None,
        ParseOutcome::NotNumber => None,
    }
}

impl Cache {
    /// The lines as character sequences.
    pub open spec fn lines(&self) -> Seq<Seq<char>> {
        self.0@.map_values(|l: String| l@)
    }

    /// The track name the host wrote, or a single space when none.
    pub fn track_name(&self) -> (r: String)
        ensures
            match suffix_after(self.lines(), "/トラック名:"@) {
                Some(v) => r@ == v,
                None => r@ == " "@,
            },
    {
        match find_suffix_lines(&self.0, "/トラック名:") {
            Some(v) => v,
            None => String::from_str(" "),
        }
    }

    /// The directory of the file the host is working on.  The host must
    /// have written its path, the file must have been saved under a
    /// name, and the path must have a parent to write next to.
    pub fn project_dir(&self) -> (r: Result<String, ArgError>)
        ensures
            suffix_after(self.lines(), "file="@) is None ==> r is Err && r->Err_0.kind
                == ArgErrorKind::NoProjectPath,
            (suffix_after(self.lines(), "file="@) matches Some(p) && p.len() == 0) ==> r is Err
                && r->Err_0.kind == ArgErrorKind::UnsavedProject,
            suffix_after(self.lines(), "file="@) matches Some(p) ==> (p.len() > 0 ==> ((
            parent_dir_of(p) matches Some(d) && r is Ok && r->Ok_0@ == d) || (parent_dir_of(p)
                is None && r is Err && r->Err_0.kind == ArgErrorKind::NoParentDir))),
    {
        let path: String = match find_suffix_lines(&self.0, "file=") {
            Some(v) => v,
            None => {
                return Err(ArgError::new(ArgErrorKind::NoProjectPath, ""));
            },
        };
        let n: usize = path.as_str().unicode_len();
        if n == 0 {
            return Err(ArgError::new(ArgErrorKind::UnsavedProject, ""));
        }
        let mut sep: usize = n;
        while sep > 0
            invariant
                n == path@.len(),
                0 <= sep <= n,
                forall|j: int| sep <= j < n ==> path@[j] != '/' && path@[j] != '\\',
            ensures
                0 <= sep <= n,
                forall|j: int| sep <= j < n ==> path@[j] != '/' && path@[j] != '\\',
                sep > 0 ==> path@[sep - 1] == '/' || path@[sep - 1] == '\\',
            decreases sep,
        {
            let c: char = path.as_str().get_char(sep - 1);
            if c == '/' || c == '\\' {
                break ;
            }
            sep = sep - 1;
        }
        proof {
            lemma_rfind_wrap(path@, '/');
            lemma_rfind_wrap(path@, '\\');
            if sep == 0 {
                assert(rfind(path@, '/') == -1 && rfind(path@, '\\') == -1) by {
                    if rfind(path@, '/') >= 0 {
                        assert(path@[rfind(path@, '/')] != '/');
                    }
                    if rfind(path@, '\\') >= 0 {
                        assert(path@[rfind(path@, '\\')] != '\\');
                    }
                }
            } else {
                let m = sep - 1;
                assert(path@[m as int] == '/' || path@[m as int] == '\\');
                if path@[m as int] == '/' {
                    assert(rfind(path@, '/') == m as int) by {
                        if rfind(path@, '/') < m as int {
                            assert(path@[m as int] != '/');
                        }
                        if rfind(path@, '/') > m as int {
                            assert(path@[rfind(path@, '/')] != '/');
                        }
                    }
                    assert(rfind(path@, '\\') <= m as int) by {
                        if rfind(path@, '\\') > m as int {
                            assert(path@[rfind(path@, '\\')] != '\\');
                        }
                    }
                } else {
                    assert(rfind(path@, '\\') == m as int) by {
                        if rfind(path@, '\\') < m as int {
                            assert(path@[m as int] != '\\');
                        }
                        if rfind(path@, '\\') > m as int {
                            assert(path@[rfind(path@, '\\')] != '\\');
                        }
                    }
                    assert(rfind(path@, '/') <= m as int) by {
                        if rfind(path@, '/') > m as int {
                            assert(path@[rfind(path@, '/')] != '/');
                        }
                    }
                }
            }
        }
        if sep == 0 {
            // a bare file name: the parent is the working directory
            let empty: String = String::new();
            proof {
                assert(empty@ =~= Seq::<char>::empty());
            }
            return Ok(empty);
        }
        if sep == 1 {
            if n == 1 {
                // the path is a bare root: nothing stands beside it
                return Err(ArgError::new(ArgErrorKind::NoParentDir, ""));
            }
            let root: &str = path.as_str().substring_char(0, 1);
            proof {
                assert(root@ =~= path@.take(1));
            }
            return Ok(root.to_owned());
        }
        let dir: &str = path.as_str().substring_char(0, sep - 1);
        proof {
            assert(dir@ =~= path@.take(sep - 1));
        }
        Ok(dir.to_owned())
    }

    /// The figure records among the lines; the first unreadable record
    /// is a fault.
    pub fn figures(&self) -> (r: Result<Vec<Figure>, ArgError>)
        ensures
            match figures_of(self.lines()) {
                Ok(v) => r is Ok && r->Ok_0@ == v,
                Err(k) => r is Err && r->Err_0.kind == ArgErrorKind::NotNumber && r->Err_0.key@
                    == k,
            },
    {
        let ghost lview = self.lines();
        let mut out: Vec<Figure> = Vec::new();
        let n: usize = self.0.len();
        let mut i: usize = 0;
        proof {
            assert(lview.skip(0) =~= lview);
        }
        while i < n
            invariant
                n == self.0.len(),
                0 <= i <= n,
                lview == self.lines(),
                match figures_of(lview.skip(i as int)) {
                    Ok(rest) => figures_of(lview) == Ok::<Seq<Figure>, Seq<char>>(out@ + rest),
                    Err(k) => figures_of(lview) == Err::<Seq<Figure>, Seq<char>>(k),
                },
            decreases n - i,
        {
            proof {
                assert(lview.skip(i as int)[0] == lview[i as int]);
                assert(lview.skip(i as int).drop_first() =~= lview.skip(i as int + 1));
                assert(lview[i as int] == self.0@[i as int]@);
            }
            let ghost before = out@;
            match Figure::parse(self.0[i].as_str()) {
                Ok(Some(f)) => {
                    out.push(f);
                    proof {
                        if let Ok(rest) = figures_of(lview.skip(i as int + 1)) {
                            assert(before + (seq![f] + rest) =~= (before.push(f)) + rest);
                        }
                    }
                },
                Ok(None) => {
                    proof {
                        if let Ok(rest) = figures_of(lview.skip(i as int + 1)) {
                            assert(before + (Seq::<Figure>::empty() + rest) =~= before + rest);
                        }
                    }
                },
                Err(e) => {
                    return Err(e);
                },
            }
            i = i + 1;
        }
        proof {
            assert(lview.skip(n as int) =~= Seq::<Seq<char>>::empty());
            assert(out@ + Seq::<Figure>::empty() =~= out@);
        }
        Ok(out)
    }
}

/// The folder a saved path sits in: everything before its last
/// separator, the bare separator for a file directly under the root,
/// the empty path for a bare file name, and nothing at all for a bare
/// root.
pub open spec fn parent_dir_of(p: Seq<char>) -> Option<Seq<char>> {
    let a = rfind(p, '/');
    let b = rfind(p, '\\');
    let m = if a > b {
        a
    } else {
        b
    };
    if m == -1 {
        Some(Seq::empty())
    } else if m == 0 && p.len() == 1 {
        None
    } else if m == 0 {
        Some(p.take(1))
    } else {
        Some(p.take(m))
    }
}

/// The figure records of a whole exchange file, in order; the first
/// unreadable record is the fault.
pub open spec fn figures_of(lines: Seq<Seq<char>>) -> Result<Seq<Figure>, Seq<char>>
    decreases lines.len(),
{
    if lines.len() == 0 {
        Ok(Seq::empty())
    } else {
        match figure_of(lines[0]) {
            Err(k) => Err(k),
            Ok(of) => match figures_of(lines.drop_first()) {
                Err(k) => Err(k),
                Ok(rest) => Ok(
                    (match of {
                        Some(f) => seq![f],
                        None => Seq::empty(),
                    }) + rest,
                ),
            },
        }
    }
}

/// Where the last occurrence of `c` sits, for the parent-folder split.
proof fn lemma_rfind_wrap(s: Seq<char>, c: char)
    ensures
        -1 <= rfind(s, c) < s.len(),
        rfind(s, c) >= 0 ==> s[rfind(s, c)] == c,
        forall|j: int| rfind(s, c) < j < s.len() ==> s[j] != c,
    decreases s.len(),
{
    if s.len() > 0 && s.last() != c {
        lemma_rfind_wrap(s.drop_last(), c);
        assert(forall|j: int| 0 <= j < s.len() - 1 ==> s.drop_last()[j] == s[j]);
    }
}

/// The rest of the first line that begins with `prefix`, among owned
/// lines.
fn find_suffix_lines(lines: &Vec<String>, prefix: &str) -> (r: Option<String>)
    ensures
        match suffix_after(lines@.map_values(|l: String| l@), prefix@) {
            Some(v) => r is Some && r->Some_0@ == v,
            None => r is None,
        },
{
    let wrapped = crate::jww::Args(clone_lines(lines));
    let r = wrapped.get(prefix);
    proof {
        assert(wrapped.tokens() == lines@.map_values(|l: String| l@));
    }
    match r {
        Ok(v) => Some(v),
        Err(_) => None,
    }
}

/// A copy of the lines, line for line.
fn clone_lines(lines: &Vec<String>) -> (r: Vec<String>)
    ensures
        r@.map_values(|l: String| l@) == lines@.map_values(|l: String| l@),
{
    let mut out: Vec<String> = Vec::new();
    let mut i: usize = 0;
    let ghost lview = lines@.map_values(|l: String| l@);
    while i < lines.len()
        invariant
            0 <= i <= lines.len(),
            lview == lines@.map_values(|l: String| l@),
            out@.map_values(|l: String| l@) == lview.take(i as int),
        decreases lines.len() - i,
    {
        let ghost before = out@.map_values(|l: String| l@);
        let item: String = lines[i].clone();
        out.push(item);
        proof {
            assert(out@.map_values(|l: String| l@) =~= before.push(lview[i as int]));
            assert(before.push(lview[i as int]) =~= lview.take(i as int + 1));
        }
        i = i + 1;
    }
    proof {
        assert(lview.take(lines.len() as int) =~= lview);
    }
    out
}

} // verus!
