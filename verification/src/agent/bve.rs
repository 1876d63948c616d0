//! Where the exported map file goes: the given name resolved against
//! the project directory, defaulted, given an extension, and numbered
//! past the names already taken.
//!
//! The file system itself is only consulted through a snapshot of the
//! existing files and directories, handed in by the caller.

use crate::decimal::dec_chars;
use crate::text::str_eq;
use vstd::prelude::*;

verus! {

/// Whether one of `items` is exactly `p`.
pub open spec fn listed(items: Seq<String>, p: Seq<char>) -> bool {
    exists|i: int| 0 <= i < items.len() && (#[trigger] items[i])@ == p
}

/// A snapshot of the file names the builder must avoid and the
/// directories it must descend into.
#[derive(Debug)]
pub struct FsView {
    /// Paths of existing files.
    pub files: Vec<String>,
    /// Paths of existing directories.
    pub dirs: Vec<String>,
}

impl FsView {
    /// A snapshot of the given files and directories.
    pub fn new(files: Vec<String>, dirs: Vec<String>) -> (r: FsView)
        ensures
            r.files == files,
            r.dirs == dirs,
    {
        FsView { files, dirs }
    }

    /// Whether `p` is a known directory.
    fn is_dir(&self, p: &str) -> (r: bool)
        ensures
            r == listed(self.dirs@, p@),
    {
        contains_str(&self.dirs, p)
    }

    /// Whether `p` exists at all.
    fn occupied(&self, p: &str) -> (r: bool)
        ensures
            r == (listed(self.files@, p@) || listed(self.dirs@, p@)),
    {
        contains_str(&self.files, p) || contains_str(&self.dirs, p)
    }
}

/// Whether one of `items` equals `p`, executed.
fn contains_str(items: &Vec<String>, p: &str) -> (r: bool)
    ensures
        r == listed(items@, p@),
{
    let n: usize = items.len();
    let mut i: usize = 0;
    while i < n
        invariant
            n == items.len(),
            0 <= i <= n,
            forall|j: int| 0 <= j < i ==> (#[trigger] items@[j])@ != p@,
        decreases n - i,
    {
        if str_eq(items[i].as_str(), p) {
            proof {
                assert((items@[i as int])@ == p@);
            }
            return true;
        }
        i = i + 1;
    }
    false
}

/// Whether a path stands on its own, not relative to the project
/// directory: it begins with a separator or a drive letter.
pub open spec fn is_absolute(s: Seq<char>) -> bool {
    (s.len() > 0 && (s[0] == '/' || s[0] == '\\')) || (s.len() >= 2 && s[1] == ':')
}

/// Whether a path names no file of its own: it is empty or ends on a
/// separator.
pub open spec fn no_file_name(s: Seq<char>) -> bool {
    s.len() == 0 || s.last() == '/' || s.last() == '\\'
}

/// `a` and `b` joined with a separator; one alone when the other is
/// empty.
pub open spec fn joined(a: Seq<char>, b: Seq<char>) -> Seq<char> {
    if a.len() == 0 {
        b
    } else if b.len() == 0 {
        a
    } else {
        a + "/"@ + b
    }
}

/// The last position of `c` in `s`, or `-1` when absent.
pub open spec fn rfind(s: Seq<char>, c: char) -> int
    decreases s.len(),
{
    if s.len() == 0 {
        -1
    } else if s.last() == c {
        s.len() - 1
    } else {
        rfind(s.drop_last(), c)
    }
}

/// Where the last occurrence of `c` sits: on a `c`, with none after it,
/// or nowhere at all.
proof fn lemma_rfind(s: Seq<char>, c: char)
    ensures
        -1 <= rfind(s, c) < s.len(),
        rfind(s, c) >= 0 ==> s[rfind(s, c)] == c,
        forall|j: int| rfind(s, c) < j < s.len() ==> s[j] != c,
    decreases s.len(),
{
    if s.len() > 0 && s.last() != c {
        lemma_rfind(s.drop_last(), c);
        assert(forall|j: int| 0 <= j < s.len() - 1 ==> s.drop_last()[j] == s[j]);
    }
}

/// Where the last component of a path begins: right after its last
/// separator.
pub open spec fn component_start(s: Seq<char>) -> int {
    let a = rfind(s, '/');
    let b = rfind(s, '\\');
    if a > b {
        a + 1
    } else {
        b + 1
    }
}

/// Whether the path's file name carries an extension: a dot past the
/// name's first character.
pub open spec fn has_extension(s: Seq<char>) -> bool {
    rfind(s, '.') > component_start(s)
}

/// The candidate names tried past a taken name: `stem-1.ext`,
/// `stem-2.ext`, and so on, stopping at the first free one (or when the
/// snapshot is exhausted, which a finite snapshot cannot force).
pub open spec fn numbered(
    stem: Seq<char>,
    ext: Seq<char>,
    taken: Seq<String>,
    i: int,
    fuel: nat,
) -> Seq<char>
    decreases fuel,
{
    let candidate = stem + "-"@ + dec_chars(i) + "."@ + ext;
    if fuel == 0 {
        candidate
    } else if !listed(taken, candidate) {
        candidate
    } else {
        numbered(stem, ext, taken, i + 1, (fuel - 1) as nat)
    }
}

/// The resolved output path: the given name against the project
/// directory, `map` for a directory or empty name, `.txt` for a missing
/// extension, and a numbered name where the name is taken.
pub open spec fn build_spec(
    given: Seq<char>,
    proj: Seq<char>,
    files: Seq<String>,
    dirs: Seq<String>,
) -> Seq<char> {
    let base = if is_absolute(given) {
        given
    } else {
        joined(proj, given)
    };
    let named = if no_file_name(given) || listed(dirs, base) {
        joined(base, "map"@)
    } else {
        base
    };
    let with_ext = if has_extension(named) {
        named
    } else {
        named + ".txt"@
    };
    if !(listed(files, with_ext) || listed(dirs, with_ext)) {
        with_ext
    } else {
        let dot = rfind(with_ext, '.');
        numbered(
            with_ext.take(dot),
            with_ext.skip(dot + 1),
            files + dirs,
            1,
            (files.len() + dirs.len() + 1) as nat,
        )
    }
}

/// The resolved path of the map file to create.
#[derive(Debug, PartialEq)]
pub struct MapPath {
    /// The path, as text.
    pub buf: String,
}

impl MapPath {
    /// The path as text.
    pub fn as_str(&self) -> (r: &str)
        ensures
            r@ == self.buf@,
    {
        self.buf.as_str()
    }

    /// Resolves where the exported map goes: `given` against the
    /// project directory `proj_dir` (unless absolute), the name `map`
    /// when `given` names a directory or nothing, the extension `txt`
    /// when none is given, and a numbered name when the name is taken
    /// in the snapshot `fs`.
    pub fn build(given: &str, proj_dir: &str, fs: &FsView) -> (r: MapPath)
        requires
            given@.len() + proj_dir@.len() < 100_000,
            fs.files@.len() + fs.dirs@.len() < 1_000_000_000,
        ensures
            r.buf@ == build_spec(given@, proj_dir@, fs.files@, fs.dirs@),
    {
        proof {
            reveal_strlit("/");
            reveal_strlit("map");
            reveal_strlit(".txt");
            reveal_strlit("-");
            reveal_strlit(".");
        }
        let n: usize = given.unicode_len();
        let absolute: bool = if n > 0 {
            let c0: char = given.get_char(0);
            if c0 == '/' || c0 == '\\' {
                true
            } else if n >= 2 {
                given.get_char(1) == ':'
            } else {
                false
            }
        } else {
            false
        };
        let mut base: String;
        if absolute {
            base = given.to_owned();
        } else if proj_dir.unicode_len() == 0 {
            base = given.to_owned();
        } else if n == 0 {
            base = proj_dir.to_owned();
        } else {
            base = proj_dir.to_owned();
            base.append("/");
            base.append(given);
        }
        let ghost gbase = base@;
        proof {
            assert(absolute == is_absolute(given@));
            if !absolute && proj_dir@.len() > 0 && given@.len() > 0 {
                assert(gbase =~= proj_dir@ + "/"@ + given@);
            }
            assert(gbase == (if is_absolute(given@) {
                given@
            } else {
                joined(proj_dir@, given@)
            }));
        }
        let nameless: bool = if n == 0 {
            true
        } else {
            let cl: char = given.get_char(n - 1);
            cl == '/' || cl == '\\'
        };
        let mut named: String;
        let with_map: bool = nameless || fs.is_dir(base.as_str());
        if with_map {
            if base.unicode_len() == 0 {
                named = String::from_str("map");
            } else {
                named = base;
                named.append("/");
                named.append("map");
            }
        } else {
            named = base;
        }
        let ghost gnamed = named@;
        proof {
            assert(nameless == no_file_name(given@));
            if with_map && gbase.len() > 0 {
                assert("map"@.len() == 3);
                assert(gnamed =~= gbase + "/"@ + "map"@);
            }
            if with_map && gbase.len() == 0 {
                assert(gnamed =~= "map"@);
            }
            assert(gnamed == (if no_file_name(given@) || listed(fs.dirs@, gbase) {
                joined(gbase, "map"@)
            } else {
                gbase
            }));
        }
        let dot: i64 = rfind_exec(named.as_str(), '.');
        let sep: i64 = {
            let a: i64 = rfind_exec(named.as_str(), '/');
            let b: i64 = rfind_exec(named.as_str(), '\\');
            if a > b {
                a
            } else {
                b
            }
        };
        proof {
            lemma_rfind(gnamed, '.');
            lemma_rfind(gnamed, '/');
            lemma_rfind(gnamed, '\\');
        }
        let mut with_ext: String;
        if dot > sep + 1 {
            with_ext = named;
        } else {
            with_ext = named;
            with_ext.append(".txt");
        }
        let ghost gwith = with_ext@;
        proof {
            assert((dot > sep + 1) == has_extension(gnamed));
            if !(dot > sep + 1) {
                assert(gwith =~= gnamed + ".txt"@);
            }
            assert(gwith == (if has_extension(gnamed) {
                gnamed
            } else {
                gnamed + ".txt"@
            }));
        }
        if !fs.occupied(with_ext.as_str()) {
            return MapPath { buf: with_ext };
        }
        proof {
            lemma_rfind(with_ext@, '.');
            if !(dot > sep + 1) {
                assert(with_ext@[with_ext@.len() - 4] == '.');
                assert(rfind(with_ext@, '.') >= with_ext@.len() - 4);
            }
        }
        let dot2: i64 = rfind_exec(with_ext.as_str(), '.');
        proof {
            lemma_rfind(with_ext@, '.');
        }
        let wlen: usize = with_ext.as_str().unicode_len();
        let stem: String = with_ext.as_str().substring_char(0, dot2 as usize).to_owned();
        let ext: String = with_ext.as_str().substring_char((dot2 + 1) as usize, wlen).to_owned();
        proof {
            assert(stem@ =~= with_ext@.take(rfind(with_ext@, '.')));
            assert(ext@ =~= with_ext@.skip(rfind(with_ext@, '.') + 1));
        }
        let mut fuel: usize = fs.files.len() + fs.dirs.len() + 1;
        let mut i: u64 = 1;
        let ghost taken = fs.files@ + fs.dirs@;
        let ghost goal = build_spec(given@, proj_dir@, fs.files@, fs.dirs@);
        proof {
            assert(goal == numbered(stem@, ext@, taken, 1, (fs.files@.len() + fs.dirs@.len()
                + 1) as nat));
        }
        loop
            invariant
                1 <= i,
                fs.files@.len() + fs.dirs@.len() < 1_000_000_000,
                fuel + i == fs.files@.len() + fs.dirs@.len() + 2,
                taken == fs.files@ + fs.dirs@,
                goal == numbered(stem@, ext@, taken, i as int, fuel as nat),
                goal == build_spec(given@, proj_dir@, fs.files@, fs.dirs@),
            decreases fuel,
        {
            let mut candidate: String = stem.clone();
            candidate.append("-");
            crate::decimal::push_dec(&mut candidate, i);
            candidate.append(".");
            candidate.append(ext.as_str());
            proof {
                assert(candidate@ =~= stem@ + "-"@ + dec_chars(i as int) + "."@ + ext@);
            }
            let taken_now: bool = {
                let in_files: bool = contains_str(&fs.files, candidate.as_str());
                let in_dirs: bool = contains_str(&fs.dirs, candidate.as_str());
                in_files || in_dirs
            };
            proof {
                assert(listed(taken, candidate@) == (listed(fs.files@, candidate@) || listed(
                    fs.dirs@,
                    candidate@,
                ))) by {
                    lemma_listed_concat(fs.files@, fs.dirs@, candidate@);
                }
            }
            if !taken_now || fuel == 0 {
                return MapPath { buf: candidate };
            }
            fuel = fuel - 1;
            i = i + 1;
        }
    }
}

/// Membership in a concatenation is membership in either part.
proof fn lemma_listed_concat(a: Seq<String>, b: Seq<String>, p: Seq<char>)
    ensures
        listed(a + b, p) == (listed(a, p) || listed(b, p)),
{
    if listed(a, p) {
        let i = choose|i: int| 0 <= i < a.len() && (#[trigger] a[i])@ == p;
        assert(((a + b)[i])@ == p);
    }
    if listed(b, p) {
        let i = choose|i: int| 0 <= i < b.len() && (#[trigger] b[i])@ == p;
        assert(((a + b)[a.len() + i])@ == p);
    }
    if listed(a + b, p) {
        let i = choose|i: int| 0 <= i < (a + b).len() && (#[trigger] (a + b)[i])@ == p;
        if i < a.len() {
            assert((a[i])@ == p);
        } else {
            assert((b[i - a.len()])@ == p);
        }
    }
}

/// The last position of `c` in `s`, executed; `-1` when absent.
fn rfind_exec(s: &str, c: char) -> (r: i64)
    requires
        s@.len() < 1_000_000_000,
    ensures
        r == rfind(s@, c),
{
    proof {
        lemma_rfind(s@, c);
    }
    let n: usize = s.unicode_len();
    let mut i: usize = n;
    proof {
        assert(s@.take(n as int) =~= s@);
    }
    while i > 0
        invariant
            n == s@.len(),
            n < 1_000_000_000,
            0 <= i <= n,
            forall|j: int| i <= j < n ==> s@[j] != c,
            rfind(s@, c) == rfind(s@.take(i as int), c),
        decreases i,
    {
        i = i - 1;
        let ci: char = s.get_char(i);
        proof {
            assert(s@.take(i as int + 1).last() == s@[i as int]);
            assert(s@.take(i as int + 1).drop_last() =~= s@.take(i as int));
        }
        if ci == c {
            proof {
                assert(rfind(s@.take(i as int + 1), c) == i);
            }
            return i as i64;
        }
    }
    proof {
        assert(s@.take(0) =~= Seq::<char>::empty());
    }
    -1
}

} // verus!
