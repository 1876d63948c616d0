//! Small verified text helpers: locating a separator, trimming a
//! leading marker, and whole-string equality, all specified over the
//! strings' character sequences.

use vstd::prelude::*;

verus! {

/// The position of the first occurrence of `c` in `s`, or `s.len()` if
/// there is none.
pub open spec fn char_pos(s: Seq<char>, c: char) -> int
    decreases s.len(),
{
    if s.len() == 0 {
        0
    } else if s[0] == c {
        0
    } else {
        1 + char_pos(s.drop_first(), c)
    }
}

/// Where the first occurrence of `c` sits: within the string on a `c`,
/// with none before it, or past the end when there is none.
pub proof fn lemma_char_pos(s: Seq<char>, c: char)
    ensures
        0 <= char_pos(s, c) <= s.len(),
        char_pos(s, c) < s.len() ==> s[char_pos(s, c)] == c,
        forall|j: int| 0 <= j < char_pos(s, c) ==> s[j] != c,
    decreases s.len(),
{
    if s.len() > 0 && s[0] != c {
        lemma_char_pos(s.drop_first(), c);
        assert(forall|j: int| 0 <= j < s.len() - 1 ==> s.drop_first()[j] == s[j + 1]);
        assert forall|j: int| 0 <= j < char_pos(s, c) implies s[j] != c by {
            if j > 0 {
                assert(s.drop_first()[j - 1] != c);
            }
        }
    }
}

/// `s` with every leading `/` removed.
pub open spec fn trim_slashes(s: Seq<char>) -> Seq<char>
    decreases s.len(),
{
    if s.len() > 0 && s[0] == '/' {
        trim_slashes(s.drop_first())
    } else {
        s
    }
}

/// Trimming removes exactly the leading run of slashes.
pub proof fn lemma_trim_slashes(s: Seq<char>, k: int)
    requires
        0 <= k <= s.len(),
        forall|j: int| 0 <= j < k ==> s[j] == '/',
        k < s.len() ==> s[k] != '/',
    ensures
        trim_slashes(s) == s.subrange(k, s.len() as int),
    decreases k,
{
    if k == 0 {
        assert(s.subrange(0, s.len() as int) =~= s);
    } else {
        assert(s[0] == '/');
        let d = s.drop_first();
        assert(forall|j: int| 0 <= j < d.len() ==> d[j] == s[j + 1]);
        lemma_trim_slashes(d, k - 1);
        assert(d.subrange(k - 1, d.len() as int) =~= s.subrange(k, s.len() as int));
    }
}

/// Whether two strings hold the same characters.
pub fn str_eq(a: &str, b: &str) -> (r: bool)
    ensures
        r == (a@ == b@),
{
    let na: usize = a.unicode_len();
    let nb: usize = b.unicode_len();
    if na != nb {
        proof {
            assert(a@ != b@) by {
                assert(a@.len() != b@.len());
            }
        }
        return false;
    }
    let mut i: usize = 0;
    while i < na
        invariant
            na == a@.len(),
            nb == b@.len(),
            na == nb,
            0 <= i <= na,
            forall|j: int| 0 <= j < i ==> a@[j] == b@[j],
        decreases na - i,
    {
        let ca: char = a.get_char(i);
        let cb: char = b.get_char(i);
        if ca != cb {
            proof {
                assert(a@[i as int] != b@[i as int]);
            }
            return false;
        }
        i = i + 1;
    }
    proof {
        assert(a@ =~= b@);
    }
    true
}

/// Whether `t` begins with `p`.
pub open spec fn has_prefix(t: Seq<char>, p: Seq<char>) -> bool {
    p.len() <= t.len() && t.take(p.len() as int) == p
}

/// Whether `t` begins with `p`, executed.
pub fn str_starts_with(t: &str, p: &str) -> (r: bool)
    ensures
        r == has_prefix(t@, p@),
{
    let nt: usize = t.unicode_len();
    let np: usize = p.unicode_len();
    if np > nt {
        proof {
            assert(!has_prefix(t@, p@));
        }
        return false;
    }
    let mut i: usize = 0;
    while i < np
        invariant
            nt == t@.len(),
            np == p@.len(),
            np <= nt,
            0 <= i <= np,
            forall|j: int| 0 <= j < i ==> t@[j] == p@[j],
        decreases np - i,
    {
        let ct: char = t.get_char(i);
        let cp: char = p.get_char(i);
        if ct != cp {
            proof {
                assert(t@.take(np as int)[i as int] != p@[i as int]);
            }
            return false;
        }
        i = i + 1;
    }
    proof {
        assert(t@.take(np as int) =~= p@);
    }
    true
}

/// Whether `t` ends with `p`.
pub open spec fn has_suffix(t: Seq<char>, p: Seq<char>) -> bool {
    p.len() <= t.len() && t.skip(t.len() - p.len()) == p
}

/// Whether `t` ends with `p`, executed.
pub fn str_ends_with(t: &str, p: &str) -> (r: bool)
    ensures
        r == has_suffix(t@, p@),
{
    let nt: usize = t.unicode_len();
    let np: usize = p.unicode_len();
    if np > nt {
        return false;
    }
    let base: usize = nt - np;
    let mut i: usize = 0;
    while i < np
        invariant
            nt == t@.len(),
            np == p@.len(),
            np <= nt,
            base == nt - np,
            0 <= i <= np,
            forall|j: int| 0 <= j < i ==> t@[base + j] == p@[j],
        decreases np - i,
    {
        let ct: char = t.get_char(base + i);
        let cp: char = p.get_char(i);
        if ct != cp {
            proof {
                assert(t@.skip(base as int)[i as int] != p@[i as int]);
            }
            return false;
        }
        i = i + 1;
    }
    proof {
        assert(t@.skip(base as int) =~= p@);
    }
    true
}

/// One command-line token split into a key and a value: everything
/// between the leading slashes and the first colon, and everything after
/// that colon.  A token with no colon carries no argument.
pub open spec fn arg_pair(s: Seq<char>) -> Option<(Seq<char>, Seq<char>)> {
    let t = trim_slashes(s);
    let cp = char_pos(t, ':');
    if cp < t.len() {
        Some((t.take(cp), t.subrange(cp + 1, t.len() as int)))
    } else {
        None
    }
}

/// Splits one command-line token into its key and value.
pub fn split_arg(s: &str) -> (r: Option<(String, String)>)
    ensures
        r is Some ==> arg_pair(s@) == Some((r->Some_0.0@, r->Some_0.1@)),
        r is None ==> arg_pair(s@) is None,
{
    let n: usize = s.unicode_len();
    let mut k: usize = 0;
    while k < n && s.get_char(k) == '/'
        invariant
            n == s@.len(),
            0 <= k <= n,
            forall|j: int| 0 <= j < k ==> s@[j] == '/',
        decreases n - k,
    {
        k = k + 1;
    }
    proof {
        lemma_trim_slashes(s@, k as int);
    }
    let ghost t = trim_slashes(s@);
    let mut i: usize = k;
    while i < n && s.get_char(i) != ':'
        invariant
            n == s@.len(),
            0 <= k <= i <= n,
            t == s@.subrange(k as int, n as int),
            forall|j: int| k <= j < i ==> s@[j] != ':',
        decreases n - i,
    {
        i = i + 1;
    }
    proof {
        lemma_char_pos(t, ':');
        assert(forall|j: int| 0 <= j < t.len() ==> t[j] == s@[j + k]);
        if i < n {
            assert(t[i - k] == ':');
            assert(char_pos(t, ':') == i - k) by {
                if char_pos(t, ':') < i - k {
                    assert(s@[char_pos(t, ':') + k] != ':');
                }
                if char_pos(t, ':') > i - k {
                    assert(t[i - k] != ':');
                }
            }
        } else {
            assert(char_pos(t, ':') == t.len()) by {
                if char_pos(t, ':') < t.len() {
                    assert(s@[char_pos(t, ':') + k] != ':');
                }
            }
        }
    }
    if i >= n {
        return None;
    }
    let key: &str = s.substring_char(k, i);
    let val: &str = s.substring_char(i + 1, n);
    proof {
        assert(key@ =~= t.take(char_pos(t, ':')));
        assert(val@ =~= t.subrange(char_pos(t, ':') + 1, t.len() as int));
    }
    Some((key.to_owned(), val.to_owned()))
}

} // verus!
