//! Decimal text for fixed-point values.
//!
//! Parsing turns a decimal string (optional sign, digits, at most one
//! point) into a fixed-point count of `1 / SCALE` units; formatting is
//! its inverse, printing the exact value with trailing zeros trimmed.
//! Both directions are specified over the strings' character sequences.

use crate::fixed::{div_round, div_round_i128, DIV_ARG_MAX, SCALE};
use vstd::prelude::*;

verus! {

/// Whether `c` is a decimal digit.
pub open spec fn is_digit(c: char) -> bool {
    48 <= c as int <= 57
}

/// The value of the digit `c`.
pub open spec fn digit_val(c: char) -> int {
    c as int - 48
}

/// The digit character for a value in `[0, 9]`.
pub open spec fn digit_char(d: int) -> char {
    if d == 0 {
        '0'
    } else if d == 1 {
        '1'
    } else if d == 2 {
        '2'
    } else if d == 3 {
        '3'
    } else if d == 4 {
        '4'
    } else if d == 5 {
        '5'
    } else if d == 6 {
        '6'
    } else if d == 7 {
        '7'
    } else if d == 8 {
        '8'
    } else {
        '9'
    }
}

/// Whether every character of `s` is a decimal digit.
pub open spec fn all_digits(s: Seq<char>) -> bool {
    forall|i: int| 0 <= i < s.len() ==> is_digit(#[trigger] s[i])
}

/// The integer a digit string denotes.
pub open spec fn digits_val(s: Seq<char>) -> int
    decreases s.len(),
{
    if s.len() == 0 {
        0
    } else {
        digits_val(s.drop_last()) * 10 + digit_val(s.last())
    }
}

/// Ten to the `n`.
pub open spec fn pow10(n: nat) -> int
    decreases n,
{
    if n == 0 {
        1
    } else {
        10 * pow10((n - 1) as nat)
    }
}

/// The position of the first decimal point in `s`, or `s.len()` if there
/// is none.
pub open spec fn dot_pos(s: Seq<char>) -> int
    decreases s.len(),
{
    if s.len() == 0 {
        0
    } else if s[0] == '.' {
        0
    } else {
        1 + dot_pos(s.drop_first())
    }
}

/// How many fractional digits of a parse are kept: the fixed-point
/// resolution.
pub const FRAC_DIGITS: u64 = 11;

/// The digits of a decimal string: everything after the optional sign.
pub open spec fn parse_tail(s: Seq<char>) -> Seq<char> {
    if s.len() > 0 && (s[0] == '-' || s[0] == '+') {
        s.drop_first()
    } else {
        s
    }
}

/// The fixed-point value a decimal string denotes: an optional sign,
/// then digits with at most one point among them and at least one digit
/// in all.  Fractional digits beyond the fixed-point resolution are
/// ignored.
pub open spec fn parse_scaled(s: Seq<char>) -> Option<int> {
    let neg = s.len() > 0 && s[0] == '-';
    let t = parse_tail(s);
    let dp = dot_pos(t);
    let ip = t.take(dp);
    let fp = if dp < t.len() {
        t.subrange(dp + 1, t.len() as int)
    } else {
        Seq::empty()
    };
    let fu = if fp.len() > FRAC_DIGITS {
        fp.take(FRAC_DIGITS as int)
    } else {
        fp
    };
    if all_digits(ip) && all_digits(fp) && ip.len() + fp.len() > 0 {
        let m = digits_val(ip) * SCALE + digits_val(fu) * pow10((FRAC_DIGITS - fu.len()) as nat);
        Some(
            if neg {
                -m
            } else {
                m
            },
        )
    } else {
        None
    }
}

/// The decimal digits of a non-negative integer, most significant first.
pub open spec fn dec_chars(n: int) -> Seq<char>
    decreases n,
{
    if n <= 9 {
        seq![digit_char(n)]
    } else {
        dec_chars(n / 10).push(digit_char(n % 10))
    }
}

/// The decimal digits of a non-negative integer, left-padded with
/// zeros to exactly `width` characters (assuming it fits).
pub open spec fn padded_chars(n: int, width: nat) -> Seq<char>
    decreases width,
{
    if width == 0 {
        Seq::empty()
    } else {
        padded_chars(n / 10, (width - 1) as nat).push(digit_char(n % 10))
    }
}

/// `s` with its trailing zero characters removed.
pub open spec fn trim_zeros(s: Seq<char>) -> Seq<char>
    decreases s.len(),
{
    if s.len() > 0 && s.last() == '0' {
        trim_zeros(s.drop_last())
    } else {
        s
    }
}

/// The decimal text of a fixed-point value: sign, whole meters, and the
/// fractional units with trailing zeros trimmed (no point at all for a
/// whole value).
pub open spec fn fmt_scaled(v: int) -> Seq<char> {
    let m = if v >= 0 {
        v
    } else {
        -v
    };
    let sign: Seq<char> = if v < 0 {
        seq!['-']
    } else {
        Seq::empty()
    };
    let ip = m / (SCALE as int);
    let fp = m % (SCALE as int);
    if fp == 0 {
        sign + dec_chars(ip)
    } else {
        sign + dec_chars(ip) + seq!['.'] + trim_zeros(padded_chars(fp, FRAC_DIGITS as nat))
    }
}

/// The decimal text of a plain integer: sign and digits.
pub open spec fn fmt_int(v: int) -> Seq<char> {
    if v < 0 {
        seq!['-'] + dec_chars(-v)
    } else {
        dec_chars(v)
    }
}

/// The one-character string for the digit `d`.
fn digit_str(d: u64) -> (r: &'static str)
    requires
        d <= 9,
    ensures
        r@ =~= seq![digit_char(d as int)],
{
    proof {
        reveal_strlit("0");
        reveal_strlit("1");
        reveal_strlit("2");
        reveal_strlit("3");
        reveal_strlit("4");
        reveal_strlit("5");
        reveal_strlit("6");
        reveal_strlit("7");
        reveal_strlit("8");
        reveal_strlit("9");
    }
    if d == 0 {
        "0"
    } else if d == 1 {
        "1"
    } else if d == 2 {
        "2"
    } else if d == 3 {
        "3"
    } else if d == 4 {
        "4"
    } else if d == 5 {
        "5"
    } else if d == 6 {
        "6"
    } else if d == 7 {
        "7"
    } else if d == 8 {
        "8"
    } else {
        "9"
    }
}

/// Appends the decimal digits of `n` to `out`.
pub fn push_dec(out: &mut String, n: u64)
    ensures
        final(out)@ == old(out)@ + dec_chars(n as int),
    decreases n,
{
    if n > 9 {
        push_dec(out, n / 10);
    }
    let d: u64 = n % 10;
    out.append(digit_str(d));
    proof {
        if n > 9 {
            assert(final(out)@ == old(out)@ + dec_chars(n as int / 10) + seq![digit_char(
                n as int % 10,
            )]);
            assert(old(out)@ + dec_chars(n as int / 10) + seq![digit_char(n as int % 10)] == old(
                out,
            )@ + dec_chars(n as int)) by {
                assert(dec_chars(n as int) == dec_chars(n as int / 10).push(digit_char(
                    n as int % 10,
                )));
                assert(old(out)@ + (dec_chars(n as int / 10) + seq![digit_char(n as int % 10)])
                    =~= (old(out)@ + dec_chars(n as int / 10)) + seq![digit_char(n as int % 10)]);
                assert(dec_chars(n as int / 10) + seq![digit_char(n as int % 10)] =~= dec_chars(
                    n as int / 10,
                ).push(digit_char(n as int % 10)));
            }
        } else {
            assert(dec_chars(n as int) =~= seq![digit_char(n as int)]);
        }
    }
}

/// Appends the decimal digits of a wide `n` to `out`.
pub fn push_dec_wide(out: &mut String, n: u128)
    ensures
        final(out)@ == old(out)@ + dec_chars(n as int),
    decreases n,
{
    if n > 9 {
        push_dec_wide(out, n / 10);
    }
    let d: u64 = (n % 10) as u64;
    out.append(digit_str(d));
    proof {
        if n > 9 {
            assert(dec_chars(n as int) == dec_chars(n as int / 10).push(digit_char(n as int % 10)));
            assert(old(out)@ + (dec_chars(n as int / 10) + seq![digit_char(n as int % 10)]) =~= (
            old(out)@ + dec_chars(n as int / 10)) + seq![digit_char(n as int % 10)]);
            assert(dec_chars(n as int / 10) + seq![digit_char(n as int % 10)] =~= dec_chars(
                n as int / 10,
            ).push(digit_char(n as int % 10)));
        } else {
            assert(dec_chars(n as int) =~= seq![digit_char(n as int)]);
        }
    }
}

/// Appends the decimal text of the wide fixed-point value `v` to `out`.
pub fn push_scaled_wide(out: &mut String, v: i128)
    requires
        -100_000_000_000_000_000_000_000_000_000_000 <= v
            <= 100_000_000_000_000_000_000_000_000_000_000,
    ensures
        final(out)@ == old(out)@ + fmt_scaled(v as int),
{
    let m: u128 = if v >= 0 {
        v as u128
    } else {
        (-v) as u128
    };
    if v < 0 {
        proof {
            reveal_strlit("-");
        }
        out.append("-");
    }
    let ip: u128 = m / (SCALE as u128);
    let mut fp: u64 = (m % (SCALE as u128)) as u64;
    push_dec_wide(out, ip);
    proof {
        vstd::arithmetic::div_mod::lemma_fundamental_div_mod(m as int, SCALE as int);
    }
    if fp > 0 {
        proof {
            reveal_strlit(".");
            lemma_pow10_scale();
        }
        out.append(".");
        let ghost fp0 = fp as int;
        let mut width: u64 = FRAC_DIGITS;
        while fp % 10 == 0
            invariant
                1 <= width <= FRAC_DIGITS,
                fp > 0,
                trim_zeros(padded_chars(fp0, FRAC_DIGITS as nat)) == trim_zeros(
                    padded_chars(fp as int, width as nat),
                ),
                fp < pow10(width as nat),
            decreases fp,
        {
            proof {
                lemma_padded_last(fp as int, width as nat);
                vstd::arithmetic::div_mod::lemma_fundamental_div_mod(fp as int, 10);
                lemma_pow10_shift(fp as int, width as nat);
            }
            fp = fp / 10;
            width = width - 1;
        }
        proof {
            lemma_padded_last(fp as int, width as nat);
        }
        push_padded(out, fp, width);
        proof {
            assert(final(out)@ =~= old(out)@ + fmt_scaled(v as int));
        }
    } else {
        proof {
            assert(final(out)@ =~= old(out)@ + fmt_scaled(v as int));
        }
    }
}

/// Appends the decimal digits of `n`, left-padded with zeros to `width`
/// characters, to `out`.
fn push_padded(out: &mut String, n: u64, width: u64)
    ensures
        final(out)@ == old(out)@ + padded_chars(n as int, width as nat),
    decreases width,
{
    if width == 0 {
        proof {
            assert(old(out)@ + padded_chars(n as int, 0) =~= old(out)@);
        }
        return ;
    }
    push_padded(out, n / 10, width - 1);
    let d: u64 = n % 10;
    out.append(digit_str(d));
    proof {
        assert(old(out)@ + (padded_chars(n as int / 10, (width - 1) as nat) + seq![digit_char(
            n as int % 10,
        )]) =~= (old(out)@ + padded_chars(n as int / 10, (width - 1) as nat)) + seq![digit_char(
            n as int % 10,
        )]);
        assert(padded_chars(n as int / 10, (width - 1) as nat) + seq![digit_char(n as int % 10)]
            =~= padded_chars(n as int / 10, (width - 1) as nat).push(digit_char(n as int % 10)));
    }
}

/// Appends the decimal text of the fixed-point value `v` to `out`.
pub fn push_scaled(out: &mut String, v: i64)
    ensures
        final(out)@ == old(out)@ + fmt_scaled(v as int),
{
    let m: u64 = if v >= 0 {
        v as u64
    } else {
        (-(v as i128)) as u64
    };
    if v < 0 {
        proof {
            reveal_strlit("-");
        }
        out.append("-");
    }
    let ip: u64 = m / (SCALE as u64);
    let mut fp: u64 = m % (SCALE as u64);
    push_dec(out, ip);
    proof {
        vstd::arithmetic::div_mod::lemma_fundamental_div_mod(m as int, SCALE as int);
    }
    if fp > 0 {
        proof {
            reveal_strlit(".");
        }
        out.append(".");
        proof {
            lemma_pow10_scale();
        }
        let ghost fp0 = fp as int;
        let mut width: u64 = FRAC_DIGITS;
        while fp % 10 == 0
            invariant
                1 <= width <= FRAC_DIGITS,
                fp > 0,
                trim_zeros(padded_chars(fp0, FRAC_DIGITS as nat)) == trim_zeros(
                    padded_chars(fp as int, width as nat),
                ),
                fp < pow10(width as nat),
            decreases fp,
        {
            proof {
                lemma_padded_last(fp as int, width as nat);
                vstd::arithmetic::div_mod::lemma_fundamental_div_mod(fp as int, 10);
                lemma_pow10_shift(fp as int, width as nat);
            }
            fp = fp / 10;
            width = width - 1;
        }
        proof {
            lemma_padded_last(fp as int, width as nat);
        }
        push_padded(out, fp, width);
        proof {
            assert(trim_zeros(padded_chars(fp as int, width as nat)) == padded_chars(
                fp as int,
                width as nat,
            ));
            assert(final(out)@ =~= old(out)@ + fmt_scaled(v as int));
        }
    } else {
        proof {
            assert(final(out)@ =~= old(out)@ + fmt_scaled(v as int));
        }
    }
}

/// Ten to the fixed-point resolution is exactly `SCALE`.
pub proof fn lemma_pow10_scale()
    ensures
        pow10(FRAC_DIGITS as nat) == SCALE,
{
    reveal_with_fuel(pow10, 12);
}

/// The last padded digit is the value's last digit, and trimming eats it
/// exactly when it is zero.
proof fn lemma_padded_last(n: int, width: nat)
    requires
        width >= 1,
        n >= 0,
    ensures
        padded_chars(n, width).last() == digit_char(n % 10),
        padded_chars(n, width).len() == width,
        padded_chars(n, width).drop_last() == padded_chars(n / 10, (width - 1) as nat),
        n % 10 == 0 ==> trim_zeros(padded_chars(n, width)) == trim_zeros(
            padded_chars(n / 10, (width - 1) as nat),
        ),
        n % 10 != 0 ==> trim_zeros(padded_chars(n, width)) == padded_chars(n, width),
    decreases width,
{
    lemma_padded_len(n, width);
    let p = padded_chars(n, width);
    assert(p == padded_chars(n / 10, (width - 1) as nat).push(digit_char(n % 10)));
    assert(p.drop_last() =~= padded_chars(n / 10, (width - 1) as nat));
    vstd::arithmetic::div_mod::lemma_fundamental_div_mod(n, 10);
    if n % 10 == 0 {
        assert(p.last() == '0');
    } else {
        assert(p.last() != '0');
    }
}

/// A padded digit string has exactly its width.
proof fn lemma_padded_len(n: int, width: nat)
    ensures
        padded_chars(n, width).len() == width,
    decreases width,
{
    if width > 0 {
        lemma_padded_len(n / 10, (width - 1) as nat);
    }
}

/// Dividing a value below `pow10(w)` by ten lands it below
/// `pow10(w - 1)`.
proof fn lemma_pow10_shift(n: int, width: nat)
    requires
        width >= 1,
        0 <= n < pow10(width),
    ensures
        0 <= n / 10 < pow10((width - 1) as nat),
{
    vstd::arithmetic::div_mod::lemma_fundamental_div_mod(n, 10);
    assert(pow10(width) == 10 * pow10((width - 1) as nat));
    assert(n / 10 < pow10((width - 1) as nat)) by (nonlinear_arith)
        requires
            n == 10 * (n / 10) + n % 10,
            0 <= n % 10 < 10,
            n < 10 * pow10((width - 1) as nat),
    ;
    vstd::arithmetic::div_mod::lemma_div_pos_is_pos(n, 10);
}

/// Largest magnitude `parse_units` accepts, in fixed-point units; it
/// covers every well-formed quantity of the crate.
pub const PARSE_MAX: i64 = 6_000_000_000_000_000_000;

/// Saturation threshold for the integer-part accumulator.
const ACC_SAT: u128 = 10_000_000_000_000_000_000;

/// Appending a digit multiplies a digit string's value by ten and adds
/// the digit.
proof fn lemma_digits_snoc(u: Seq<char>, c: char)
    ensures
        digits_val(u.push(c)) == digits_val(u) * 10 + digit_val(c),
{
    assert(u.push(c).drop_last() =~= u);
    assert(u.push(c).last() == c);
}

/// A digit string's value is non-negative.
proof fn lemma_digits_nonneg(u: Seq<char>)
    requires
        all_digits(u),
    ensures
        digits_val(u) >= 0,
    decreases u.len(),
{
    if u.len() > 0 {
        assert(all_digits(u.drop_last())) by {
            assert(forall|i: int|
                0 <= i < u.len() - 1 ==> #[trigger] u.drop_last()[i] == u[i] && is_digit(u[i]));
        }
        lemma_digits_nonneg(u.drop_last());
        assert(is_digit(u.last()));
    }
}

/// Where the first decimal point of `s` sits: within the string on a
/// point, with none before it, or past the end when there is none.
proof fn lemma_dot_pos_char(s: Seq<char>)
    ensures
        0 <= dot_pos(s) <= s.len(),
        dot_pos(s) < s.len() ==> s[dot_pos(s)] == '.',
        forall|j: int| 0 <= j < dot_pos(s) ==> s[j] != '.',
    decreases s.len(),
{
    if s.len() > 0 && s[0] != '.' {
        lemma_dot_pos_char(s.drop_first());
        assert(forall|j: int| 0 <= j < s.len() - 1 ==> s.drop_first()[j] == s[j + 1]);
        assert forall|j: int| 0 <= j < dot_pos(s) implies s[j] != '.' by {
            if j > 0 {
                assert(s.drop_first()[j - 1] != '.');
            }
        }
    }
}

/// Ten to the `e`, for the fractional scales.
fn pow10_u64(e: u64) -> (r: u64)
    requires
        e <= 11,
    ensures
        r == pow10(e as nat),
        r <= 100_000_000_000,
{
    let mut p: u64 = 1;
    let mut k: u64 = 0;
    while k < e
        invariant
            0 <= k <= e <= 11,
            p == pow10(k as nat),
            p <= 100_000_000_000,
        decreases e - k,
    {
        proof {
            lemma_pow10_le(k as nat + 1, 11);
        }
        p = p * 10;
        k = k + 1;
    }
    p
}

/// `pow10` is monotone, and bounded by `pow10(11)` up to eleven.
proof fn lemma_pow10_le(e: nat, cap: nat)
    requires
        e <= cap,
        cap <= 11,
    ensures
        0 < pow10(e) <= pow10(cap),
        pow10(cap) <= 100_000_000_000,
    decreases cap,
{
    reveal_with_fuel(pow10, 12);
    if e < cap {
        lemma_pow10_le(e, (cap - 1) as nat);
    }
}

/// Whether `c` is a decimal digit, executed.
fn is_digit_char(c: char) -> (r: bool)
    ensures
        r == is_digit(c),
{
    let v: u32 = c as u32;
    48 <= v && v <= 57
}

/// A digit string of length `k` has value below `pow10(k)`.
proof fn lemma_digits_lt_pow(u: Seq<char>)
    requires
        all_digits(u),
        u.len() <= 11,
    ensures
        digits_val(u) < pow10(u.len()),
    decreases u.len(),
{
    reveal_with_fuel(pow10, 12);
    if u.len() == 0 {
    } else {
        assert(all_digits(u.drop_last())) by {
            assert(forall|i: int|
                0 <= i < u.len() - 1 ==> #[trigger] u.drop_last()[i] == u[i] && is_digit(u[i]));
        }
        lemma_digits_lt_pow(u.drop_last());
        assert(is_digit(u.last()));
        assert(digits_val(u) < pow10(u.len())) by (nonlinear_arith)
            requires
                digits_val(u) == digits_val(u.drop_last()) * 10 + digit_val(u.last()),
                digits_val(u.drop_last()) < pow10((u.len() - 1) as nat),
                digit_val(u.last()) <= 9,
                pow10(u.len() as nat) == 10 * pow10((u.len() - 1) as nat),
        ;
    }
}

/// What parsing a decimal string yields: its fixed-point value, or why
/// there is none.
#[derive(Debug, Clone, Copy, PartialEq, Eq, Structural)]
pub enum ParseOutcome {
    /// The string denotes this fixed-point value.
    Value(i64),
    /// The string denotes a number beyond `PARSE_MAX` in magnitude.
    TooLarge,
    /// The string is not a decimal number.
    NotNumber,
}

/// Parses a decimal string into a fixed-point value.
#[verifier::rlimit(100)]
pub fn parse_units(s: &str) -> (r: ParseOutcome)
    ensures
        parse_scaled(s@) is None <==> r is NotNumber,
        r is Value ==> parse_scaled(s@) == Some(r->0 as int),
        (parse_scaled(s@) matches Some(v) && -PARSE_MAX <= v <= PARSE_MAX) ==> r is Value,
        (parse_scaled(s@) matches Some(v) && !(-PARSE_MAX <= v <= PARSE_MAX)) ==> r is TooLarge,
{
    let n: usize = s.unicode_len();
    let mut i: usize = 0;
    let mut neg: bool = false;
    if n > 0 {
        let c0: char = s.get_char(0);
        if c0 == '-' {
            neg = true;
            i = 1;
        } else if c0 == '+' {
            i = 1;
        }
    }
    let start: usize = i;
    let ghost off = i as int;
    let ghost t = s@.subrange(off, n as int);
    proof {
        lemma_dot_pos_char(t);
        if off == 1 {
            assert(t =~= s@.drop_first());
        } else {
            assert(t =~= s@);
        }
        assert(t == parse_tail(s@));
    }
    let mut acc: u128 = 0;
    while i < n && is_digit_char(s.get_char(i))
        invariant
            off <= i as int <= n,
            n == s@.len(),
            t == s@.subrange(off, n as int),
            0 <= off <= 1,
            start as int == off,
            all_digits(s@.subrange(off, i as int)),
            digits_val(s@.subrange(off, i as int)) <= ACC_SAT ==> acc == digits_val(
                s@.subrange(off, i as int),
            ),
            digits_val(s@.subrange(off, i as int)) > ACC_SAT ==> acc > ACC_SAT,
            acc <= 2 * ACC_SAT,
        decreases n - i,
    {
        let c: char = s.get_char(i);
        let d: u128 = (c as u32 as u128) - 48;
        proof {
            let pref = s@.subrange(off, i as int);
            let pref2 = s@.subrange(off, i as int + 1);
            assert(pref2 =~= pref.push(s@[i as int]));
            lemma_digits_snoc(pref, s@[i as int]);
            lemma_digits_nonneg(pref);
            assert(all_digits(pref2)) by {
                assert(forall|j: int|
                    0 <= j < pref2.len() ==> #[trigger] pref2[j] == s@[off + j]);
            }
        }
        let nv: u128 = acc * 10 + d;
        acc = if nv > 2 * ACC_SAT {
            2 * ACC_SAT
        } else {
            nv
        };
        i = i + 1;
    }
    let ghost int_end = i as int;
    let ghost dp = dot_pos(t);
    let ghost ip = t.take(dp);
    let mut fval: u64 = 0;
    let mut fused: u64 = 0;
    let mut frac_len: usize = 0;
    let ghost frac_start = i as int + 1;
    if i < n {
        let c: char = s.get_char(i);
        if c != '.' {
            proof {
                assert(dp > int_end - off) by {
                    if dp <= int_end - off {
                        assert(t[dp] == s@[dp + off]);
                        if dp < int_end - off {
                            assert(is_digit(s@[dp + off]));
                        }
                    }
                }
                assert(ip[int_end - off] == t[int_end - off]);
                assert(t[int_end - off] == s@[int_end]);
                assert(!is_digit(ip[int_end - off]));
                assert(!all_digits(ip));
            }
            return ParseOutcome::NotNumber;
        }
        proof {
            assert(dp == int_end - off) by {
                assert(t[int_end - off] == s@[int_end]);
                if dp < int_end - off {
                    assert(t[dp] == s@[dp + off]);
                    assert(is_digit(s@[dp + off]));
                }
                if dp > int_end - off {
                    assert(t[int_end - off] != '.');
                }
            }
        }
        let mut j: usize = i + 1;
        while j < n
            invariant
                0 <= off <= 1,
                off <= i as int,
                i < j <= n,
                n == s@.len(),
                t == s@.subrange(off, n as int),
                frac_start == i as int + 1,
                t == parse_tail(s@),
                dp == i as int - off,
                dp == dot_pos(t),
                0 <= dp < t.len(),
                forall|m: int| frac_start <= m < j as int ==> is_digit(#[trigger] s@[m]),
                fused == if j as int - frac_start <= FRAC_DIGITS {
                    j as int - frac_start
                } else {
                    FRAC_DIGITS as int
                },
                fval == digits_val(s@.subrange(frac_start, frac_start + fused as int)),
                0 <= fval < 100_000_000_000,
            decreases n - j,
        {
            let c: char = s.get_char(j);
            if !is_digit_char(c) {
                proof {
                    let fp = t.subrange(dp + 1, t.len() as int);
                    assert(fp[j - frac_start] == t[j as int - off]);
                    assert(t[j as int - off] == s@[j as int]);
                    assert(!all_digits(fp));
                }
                return ParseOutcome::NotNumber;
            }
            if fused < FRAC_DIGITS {
                let d: u64 = (c as u32 as u64) - 48;
                proof {
                    let pref = s@.subrange(frac_start, frac_start + fused as int);
                    let pref2 = s@.subrange(frac_start, frac_start + fused as int + 1);
                    assert(pref2 =~= pref.push(s@[frac_start + fused as int]));
                    lemma_digits_snoc(pref, s@[frac_start + fused as int]);
                    lemma_digits_nonneg(pref);
                    assert(all_digits(pref2)) by {
                        assert(forall|m: int|
                            0 <= m < pref2.len() ==> #[trigger] pref2[m] == s@[frac_start + m]);
                    }
                    lemma_digits_lt_pow(pref2);
                    lemma_pow10_le(fused as nat + 1, 11);
                }
                fval = fval * 10 + d;
                fused = fused + 1;
            }
            j = j + 1;
        }
        frac_len = n - i - 1;
    }
    let ghost fp = if dp < t.len() {
        t.subrange(dp + 1, t.len() as int)
    } else {
        Seq::<char>::empty()
    };
    let ghost fu = if fp.len() > FRAC_DIGITS {
        fp.take(FRAC_DIGITS as int)
    } else {
        fp
    };
    proof {
        assert(ip =~= s@.subrange(off, int_end));
        if int_end < n {
            assert(fp =~= s@.subrange(frac_start, n as int));
            assert(all_digits(fp)) by {
                assert(forall|m: int|
                    0 <= m < fp.len() ==> #[trigger] fp[m] == s@[frac_start + m]);
            }
            if fp.len() > FRAC_DIGITS {
                assert(fu =~= s@.subrange(frac_start, frac_start + FRAC_DIGITS as int));
            } else {
                assert(fu =~= s@.subrange(frac_start, frac_start + fp.len() as int));
            }
            assert(fused as int == fu.len());
            assert(fval == digits_val(fu));
        } else {
            assert(dp == t.len()) by {
                if dp < t.len() {
                    assert(t[dp] == s@[dp + off]);
                    assert(is_digit(s@[dp + off]));
                }
            }
            assert(fp.len() == 0);
            assert(fu =~= fp);
            assert(fval == digits_val(fu)) by {
                assert(fu.len() == 0);
            }
        }
        lemma_digits_nonneg(ip);
        lemma_digits_nonneg(fu);
        lemma_pow10_le((FRAC_DIGITS - fused) as nat, 11);
    }
    if i == start && frac_len == 0 {
        proof {
            assert(ip.len() + fp.len() == 0);
        }
        return ParseOutcome::NotNumber;
    }
    if acc > ACC_SAT {
        proof {
            assert(digits_val(ip) > ACC_SAT);
            let fterm = digits_val(fu) * pow10((FRAC_DIGITS - fu.len()) as nat);
            assert(fterm >= 0 && digits_val(ip) * SCALE > PARSE_MAX) by (nonlinear_arith)
                requires
                    digits_val(ip) > ACC_SAT,
                    digits_val(fu) >= 0,
                    pow10((FRAC_DIGITS - fu.len()) as nat) >= 1,
                    fterm == digits_val(fu) * pow10((FRAC_DIGITS - fu.len()) as nat),
            ;
        }
        return ParseOutcome::TooLarge;
    }
    let scale_pow: u64 = pow10_u64(FRAC_DIGITS - fused);
    proof {
        assert((fval as int) * (scale_pow as int) <= 100_000_000_000 * 100_000_000_000)
            by (nonlinear_arith)
            requires
                0 <= fval as int <= 100_000_000_000,
                0 <= scale_pow as int <= 100_000_000_000,
        ;
    }
    let m: u128 = acc * (SCALE as u128) + (fval as u128) * (scale_pow as u128);
    proof {
        assert(m == digits_val(ip) * SCALE + digits_val(fu) * pow10((FRAC_DIGITS
            - fu.len()) as nat));
    }
    if m > PARSE_MAX as u128 {
        return ParseOutcome::TooLarge;
    }
    let mv: i64 = m as i64;
    if neg {
        ParseOutcome::Value(-mv)
    } else {
        ParseOutcome::Value(mv)
    }
}

/// `s` with every decimal point removed.
pub open spec fn strip_dots(s: Seq<char>) -> Seq<char>
    decreases s.len(),
{
    if s.len() == 0 {
        Seq::empty()
    } else if s.last() == '.' {
        strip_dots(s.drop_last())
    } else {
        strip_dots(s.drop_last()).push(s.last())
    }
}

/// How many characters of `s` stand after its first decimal point:
/// zero when there is none.
pub open spec fn frac_width(s: Seq<char>) -> int {
    if dot_pos(s) < s.len() {
        s.len() - dot_pos(s) - 1
    } else {
        0
    }
}

/// Whether the fixed-point value `v`, rounded to as many decimal places
/// as `s` shows, prints exactly as `s` with its point removed.  This is
/// the comparison the drawing tests use against expected radii.
pub open spec fn matches_rounded(v: int, s: Seq<char>) -> bool {
    fmt_int(div_round(v * pow10(frac_width(s) as nat), SCALE as int)) == strip_dots(s)
}

/// Compares the fixed-point value `v` against the expected decimal text
/// `s`, after rounding `v` to the number of places `s` shows.
#[verifier::rlimit(60)]
pub fn eq_rounded(v: i64, s: &str) -> (r: bool)
    requires
        -PARSE_MAX <= v <= PARSE_MAX,
        frac_width(s@) <= FRAC_DIGITS,
    ensures
        r == matches_rounded(v as int, s@),
{
    let n: usize = s.unicode_len();
    let mut d: usize = 0;
    proof {
        lemma_dot_pos_char(s@);
    }
    while d < n && s.get_char(d) != '.'
        invariant
            n == s@.len(),
            0 <= d <= n,
            forall|j: int| 0 <= j < d ==> s@[j] != '.',
        decreases n - d,
    {
        d = d + 1;
    }
    proof {
        if d < n {
            assert(dot_pos(s@) == d) by {
                if dot_pos(s@) < d {
                    assert(s@[dot_pos(s@)] != '.');
                }
                if dot_pos(s@) > d {
                    assert(s@[d as int] != '.');
                }
            }
        } else {
            assert(dot_pos(s@) == n) by {
                if dot_pos(s@) < n {
                    assert(s@[dot_pos(s@)] != '.');
                }
            }
        }
    }
    let fw: u64 = if d < n {
        (n - d - 1) as u64
    } else {
        0
    };
    let p: u64 = pow10_u64(fw);
    proof {
        assert(-DIV_ARG_MAX <= (v as int) * (p as int) <= DIV_ARG_MAX && -(PARSE_MAX as int)
            * 100_000_000_000 <= (v as int) * (p as int) <= PARSE_MAX as int * 100_000_000_000)
            by (nonlinear_arith)
            requires
                -PARSE_MAX <= v as int <= PARSE_MAX,
                0 <= p as int <= 100_000_000_000,
        ;
        crate::fixed::lemma_div_round_le(
            (v as int) * (p as int),
            PARSE_MAX as int * 100_000_000_000,
            SCALE as int,
        );
        assert(PARSE_MAX as int * 100_000_000_000 / (SCALE as int) + 1
            <= 100_000_000_000_000_000_000_000_000_000) by (nonlinear_arith);
    }
    let rounded: i128 = div_round_i128((v as i128) * (p as i128), SCALE as i128);
    let mut shown: String = String::new();
    if rounded < 0 {
        proof {
            reveal_strlit("-");
        }
        shown.append("-");
        push_dec_wide(&mut shown, (-rounded) as u128);
        proof {
            assert(shown@ =~= fmt_int(rounded as int));
        }
    } else {
        push_dec_wide(&mut shown, rounded as u128);
        proof {
            assert(shown@ =~= fmt_int(rounded as int));
        }
    }
    let mut stripped: String = String::new();
    let mut i: usize = 0;
    proof {
        assert(strip_dots(s@.take(0)) =~= Seq::<char>::empty());
    }
    while i < n
        invariant
            n == s@.len(),
            0 <= i <= n,
            stripped@ == strip_dots(s@.take(i as int)),
        decreases n - i,
    {
        let c: char = s.get_char(i);
        proof {
            assert(s@.take(i as int + 1).last() == s@[i as int]);
            assert(s@.take(i as int + 1).drop_last() =~= s@.take(i as int));
        }
        if c != '.' {
            let piece: &str = s.substring_char(i, i + 1);
            proof {
                assert(piece@ =~= seq![s@[i as int]]);
            }
            stripped.append(piece);
            proof {
                assert(stripped@ =~= strip_dots(s@.take(i as int + 1)));
            }
        }
        i = i + 1;
    }
    proof {
        assert(s@.take(n as int) =~= s@);
    }
    crate::text::str_eq(shown.as_str(), stripped.as_str())
}

/// The decimal text of the fixed-point value `v`, on its own.
pub fn format_scaled(v: i64) -> (r: String)
    ensures
        r@ == fmt_scaled(v as int),
{
    let mut out = String::new();
    push_scaled(&mut out, v);
    proof {
        assert(Seq::<char>::empty() + fmt_scaled(v as int) =~= fmt_scaled(v as int));
    }
    out
}

} // verus!
