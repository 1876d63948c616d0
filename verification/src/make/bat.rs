//! One batch file of the package: its path, and its content with the
//! version marker stamped in and the text encoded for the host.

use crate::agent::sjis::{sjis_of, to_sjis};
use crate::text::has_prefix;
use vstd::prelude::*;

verus! {

/// The version marker that batch files carry.
pub open spec fn marker() -> Seq<char> {
    "(VERSION)"@
}

/// `s` with every occurrence of the version marker replaced by `rep`.
pub open spec fn stamp_version(s: Seq<char>, rep: Seq<char>) -> Seq<char>
    decreases s.len(),
{
    if s.len() == 0 {
        Seq::empty()
    } else if has_prefix(s, marker()) && marker().len() > 0 {
        rep + stamp_version(s.skip(marker().len() as int), rep)
    } else {
        seq![s[0]] + stamp_version(s.drop_first(), rep)
    }
}

/// A batch file, by its path.
#[derive(Debug)]
pub struct BatFile {
    /// The file's path.
    pub path: String,
}

impl BatFile {
    /// A batch file at `path`.
    pub fn new(path: &str) -> (r: BatFile)
        ensures
            r.path@ == path@,
    {
        BatFile { path: path.to_owned() }
    }

    /// The file's path as text.
    pub fn path_str(&self) -> (r: &str)
        ensures
            r@ == self.path@,
    {
        self.path.as_str()
    }

    /// The bytes to package for this file: its text with the version
    /// marker replaced by `version`, encoded for the host.
    pub fn make(&self, utf8: &str, version: &str) -> (r: Vec<u8>)
        ensures
            r@ == sjis_of(stamp_version(utf8@, version@)),
    {
        let replaced: String = stamp_marker(utf8, version);
        to_sjis(replaced.as_str())
    }
}

/// Replaces every occurrence of the version marker in `s` by `rep`.
pub fn stamp_marker(s: &str, rep: &str) -> (r: String)
    ensures
        r@ == stamp_version(s@, rep@),
    decreases s@.len(),
{
    proof {
        reveal_strlit("(VERSION)");
    }
    let n: usize = s.unicode_len();
    if n == 0 {
        let out: String = String::new();
        proof {
            assert(stamp_version(s@, rep@) =~= Seq::<char>::empty());
            assert(out@ =~= Seq::<char>::empty());
        }
        return out;
    }
    if crate::text::str_starts_with(s, "(VERSION)") {
        let tail: &str = s.substring_char(9, n);
        proof {
            assert("(VERSION)"@.len() == 9);
            assert(tail@ =~= s@.skip(9));
        }
        let mut out: String = rep.to_owned();
        let rest: String = stamp_marker(tail, rep);
        out.append(rest.as_str());
        return out;
    }
    let head: &str = s.substring_char(0, 1);
    let tail: &str = s.substring_char(1, n);
    proof {
        assert(head@ =~= seq![s@[0]]);
        assert(tail@ =~= s@.drop_first());
    }
    let mut out: String = head.to_owned();
    let rest: String = stamp_marker(tail, rep);
    out.append(rest.as_str());
    out
}

} // verus!
