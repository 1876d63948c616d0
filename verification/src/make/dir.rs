//! The package source directory: which of its entries are the batch
//! files to package.

use crate::text::{has_suffix, str_ends_with};
use vstd::prelude::*;

verus! {

/// The entries of a listing that are batch files, in order.
pub open spec fn bat_only(entries: Seq<Seq<char>>) -> Seq<Seq<char>>
    decreases entries.len(),
{
    if entries.len() == 0 {
        Seq::empty()
    } else if has_suffix(entries.last(), ".bat"@) {
        bat_only(entries.drop_last()).push(entries.last())
    } else {
        bat_only(entries.drop_last())
    }
}

/// The package source directory, by its path.
#[derive(Debug)]
pub struct Dir {
    /// The directory's path.
    pub path: String,
}

impl Dir {
    /// The directory at `path`.
    pub fn new(path: &str) -> (r: Dir)
        ensures
            r.path@ == path@,
    {
        Dir { path: path.to_owned() }
    }

    /// The `sub` directory inside this one.
    pub fn sub(&self) -> (r: Dir)
        ensures
            r.path@ == self.path@ + "/sub"@,
    {
        let mut p: String = self.path.clone();
        p.append("/sub");
        Dir { path: p }
    }

    /// The batch files among this directory's entries and its sub
    /// directory's entries: every path ending in `.bat`, in listing
    /// order.
    pub fn bat_paths(&self, entries: &Vec<String>, sub_entries: &Vec<String>) -> (r: Vec<String>)
        ensures
            r@.map_values(|p: String| p@) == bat_only(entries@.map_values(|p: String| p@))
                + bat_only(sub_entries@.map_values(|p: String| p@)),
    {
        let mut out: Vec<String> = Vec::new();
        push_bats(&mut out, entries);
        let ghost first = out@.map_values(|p: String| p@);
        push_bats(&mut out, sub_entries);
        out
    }
}

/// Appends the batch files among `entries` to `out`.
fn push_bats(out: &mut Vec<String>, entries: &Vec<String>)
    ensures
        final(out)@.map_values(|p: String| p@) == old(out)@.map_values(|p: String| p@) + bat_only(
            entries@.map_values(|p: String| p@),
        ),
{
    let ghost eview = entries@.map_values(|p: String| p@);
    let mut i: usize = 0;
    proof {
        assert(eview.take(0) =~= Seq::<Seq<char>>::empty());
        assert(old(out)@.map_values(|p: String| p@) + bat_only(eview.take(0)) =~= old(
            out,
        )@.map_values(|p: String| p@));
    }
    while i < entries.len()
        invariant
            0 <= i <= entries.len(),
            eview == entries@.map_values(|p: String| p@),
            out@.map_values(|p: String| p@) == old(out)@.map_values(|p: String| p@) + bat_only(
                eview.take(i as int),
            ),
        decreases entries.len() - i,
    {
        let ghost before = out@.map_values(|p: String| p@);
        if str_ends_with(entries[i].as_str(), ".bat") {
            let item: String = entries[i].clone();
            out.push(item);
            proof {
                assert(out@.map_values(|p: String| p@) =~= before.push(entries@[i as int]@));
            }
        }
        proof {
            assert(eview.take(i as int + 1).drop_last() =~= eview.take(i as int));
            assert(eview.take(i as int + 1).last() == entries@[i as int]@);
            assert(out@.map_values(|p: String| p@) =~= old(out)@.map_values(|p: String| p@)
                + bat_only(eview.take(i as int + 1)));
        }
        i = i + 1;
    }
    proof {
        assert(eview.take(entries.len() as int) =~= eview);
    }
}

} // verus!
