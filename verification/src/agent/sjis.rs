//! Shift-JIS text for the host CAD application.
//!
//! The exchange file is written in Shift-JIS.  The encoding itself is
//! done by an outside library; this module names its result and builds
//! whole file images from verified line text.

use vstd::prelude::*;
use vstd::string::StringSliceAdditionalSpecFns;

verus! {

/// The Shift-JIS encoding of a character sequence, as the outside
/// encoder computes it: a function of the characters alone.
pub uninterp spec fn sjis_of(s: Seq<char>) -> Seq<u8>;

/// Relies on encoding_rs's `Encoding::encode` for `SHIFT_JIS`: the
/// result depends on the input characters alone, an empty input encodes
/// to nothing, and ASCII text passes through as its own bytes.
#[verifier::external_body]
pub fn to_sjis(s: &str) -> (r: Vec<u8>)
    ensures
        r@ == sjis_of(s@),
        s@.len() == 0 ==> r@.len() == 0,
        vstd::string::is_ascii(s) ==> r@ == s.spec_bytes(),
{
    let (cow, _, _) = encoding_rs::SHIFT_JIS.encode(s);
    cow.into_owned()
}

/// The bytes of a whole exchange file: each line Shift-JIS encoded and
/// closed with a carriage return and a line feed.
pub open spec fn sjis_file(lines: Seq<Seq<char>>) -> Seq<u8>
    decreases lines.len(),
{
    if lines.len() == 0 {
        Seq::empty()
    } else {
        sjis_file(lines.drop_last()) + sjis_of(lines.last()) + seq![13u8, 10u8]
    }
}

/// Encodes the lines of an exchange file into its Shift-JIS bytes.
pub fn encode_lines(lines: &Vec<String>) -> (r: Vec<u8>)
    ensures
        r@ == sjis_file(lines@.map_values(|l: String| l@)),
{
    let ghost lview = lines@.map_values(|l: String| l@);
    let mut out: Vec<u8> = Vec::new();
    let mut i: usize = 0;
    proof {
        assert(lview.take(0) =~= Seq::<Seq<char>>::empty());
    }
    while i < lines.len()
        invariant
            0 <= i <= lines.len(),
            lview == lines@.map_values(|l: String| l@),
            out@ == sjis_file(lview.take(i as int)),
        decreases lines.len() - i,
    {
        let mut piece: Vec<u8> = to_sjis(lines[i].as_str());
        let ghost before = out@;
        out.append(&mut piece);
        out.push(13u8);
        out.push(10u8);
        proof {
            assert(lview.take(i as int + 1).drop_last() =~= lview.take(i as int));
            assert(lview.take(i as int + 1).last() == lines@[i as int]@);
            assert(out@ =~= sjis_file(lview.take(i as int + 1)));
        }
        i = i + 1;
    }
    proof {
        assert(lview.take(lines.len() as int) =~= lview);
    }
    out
}

} // verus!
