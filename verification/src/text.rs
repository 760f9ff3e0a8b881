//! Character-level helpers for the token grammars: ASCII case folding and
//! decimal number parsing, each pinned to a spec-level definition.

use vstd::prelude::*;

verus! {

/// Code point of `c` with ASCII upper-case letters folded to lower case.
pub open spec fn lower_code(c: char) -> int {
    if 65 <= c as u32 && c as u32 <= 90 {
        c as u32 + 32
    } else {
        c as u32 as int
    }
}

/// The two sequences are equal up to ASCII case.
pub open spec fn lower_eq(s: Seq<char>, t: Seq<char>) -> bool {
    s.len() == t.len() && forall|i: int| 0 <= i < s.len() ==> lower_code(s[i]) == lower_code(t[i])
}

/// `c` is an ASCII letter.
pub open spec fn is_ascii_letter(c: char) -> bool {
    (65 <= c as u32 && c as u32 <= 90) || (97 <= c as u32 && c as u32 <= 122)
}

/// `c` is an ASCII decimal digit.
pub open spec fn is_ascii_digit_char(c: char) -> bool {
    48 <= c as u32 && c as u32 <= 57
}

/// Value of `s` read as a big-endian decimal numeral.
pub open spec fn digits_val(s: Seq<char>) -> int
    decreases s.len(),
{
    if s.len() == 0 {
        0
    } else {
        digits_val(s.drop_last()) * 10 + (s.last() as u32 - 48)
    }
}

/// Every character of `s` is an ASCII decimal digit.
pub open spec fn all_ascii_digits(s: Seq<char>) -> bool {
    forall|i: int| 0 <= i < s.len() ==> is_ascii_digit_char(s[i])
}

/// The predicate selecting ASCII letters, as a function value for `filter`.
pub open spec fn letter_pred() -> spec_fn(char) -> bool {
    |c: char| is_ascii_letter(c)
}

/// The predicate selecting everything but ASCII letters.
pub open spec fn nonletter_pred() -> spec_fn(char) -> bool {
    |c: char| !is_ascii_letter(c)
}

/// The letters of `s`, in order: one half of partitioning by letter-ness.
pub open spec fn alpha_part(s: Seq<char>) -> Seq<char> {
    s.filter(letter_pred())
}

/// The non-letters of `s`, in order: the other half of the partition.
pub open spec fn nonalpha_part(s: Seq<char>) -> Seq<char> {
    s.filter(nonletter_pred())
}

/// `s` with one leading `+` sign removed, if present.
pub open spec fn strip_plus(s: Seq<char>) -> Seq<char> {
    if s.len() > 0 && s[0] == '+' {
        s.subrange(1, s.len() as int)
    } else {
        s
    }
}

/// What `str::parse::<usize>` accepts: an optional `+` sign followed by at
/// least one ASCII digit, whose value fits in `usize`.
pub open spec fn parse_usize_spec(s: Seq<char>) -> Option<int> {
    let t = strip_plus(s);
    if t.len() > 0 && all_ascii_digits(t) && digits_val(t) <= usize::MAX {
        Some(digits_val(t))
    } else {
        None
    }
}

pub proof fn lemma_digits_val_nonneg(s: Seq<char>)
    requires
        all_ascii_digits(s),
    ensures
        digits_val(s) >= 0,
    decreases s.len(),
{
    if s.len() > 0 {
        assert(all_ascii_digits(s.drop_last()));
        lemma_digits_val_nonneg(s.drop_last());
    }
}

/// A decimal numeral is at least as large as any of its prefixes.
pub proof fn lemma_digits_val_prefix(s: Seq<char>, i: int)
    requires
        all_ascii_digits(s),
        0 <= i <= s.len(),
    ensures
        digits_val(s.take(i)) <= digits_val(s),
    decreases s.len() - i,
{
    if i < s.len() {
        assert(s.take(i + 1).drop_last() =~= s.take(i));
        assert(all_ascii_digits(s.take(i + 1)));
        lemma_digits_val_nonneg(s.take(i));
        assert(digits_val(s.take(i + 1)) == digits_val(s.take(i)) * 10 + (s[i] as u32 - 48));
        lemma_digits_val_prefix(s, i + 1);
    } else {
        assert(s.take(i) =~= s);
    }
}

/// Whether `a` and `b` hold the same characters up to ASCII case.
pub fn str_eq_ignore_case(a: &str, b: &str) -> (r: bool)
    ensures
        r == lower_eq(a@, b@),
{
    let an: usize = a.unicode_len();
    let bn: usize = b.unicode_len();
    if an != bn {
        return false;
    }
    let mut i: usize = 0;
    while i < an
        invariant
            0 <= i <= an,
            an == a@.len(),
            an == b@.len(),
            forall|j: int| 0 <= j < i ==> lower_code(a@[j]) == lower_code(b@[j]),
        decreases an - i,
    {
        let ca: u32 = a.get_char(i) as u32;
        let cb: u32 = b.get_char(i) as u32;
        let fa: u32 = if 65 <= ca && ca <= 90 { ca + 32 } else { ca };
        let fb: u32 = if 65 <= cb && cb <= 90 { cb + 32 } else { cb };
        if fa != fb {
            return false;
        }
        i += 1;
    }
    true
}

/// Whether the characters in `v` equal `b` up to ASCII case.
pub fn chars_eq_ignore_case(v: &Vec<char>, b: &str) -> (r: bool)
    ensures
        r == lower_eq(v@, b@),
{
    let bn: usize = b.unicode_len();
    if v.len() != bn {
        return false;
    }
    let mut i: usize = 0;
    while i < bn
        invariant
            0 <= i <= bn,
            bn == v@.len(),
            bn == b@.len(),
            forall|j: int| 0 <= j < i ==> lower_code(v@[j]) == lower_code(b@[j]),
        decreases bn - i,
    {
        let ca: u32 = v[i] as u32;
        let cb: u32 = b.get_char(i) as u32;
        let fa: u32 = if 65 <= ca && ca <= 90 { ca + 32 } else { ca };
        let fb: u32 = if 65 <= cb && cb <= 90 { cb + 32 } else { cb };
        if fa != fb {
            return false;
        }
        i += 1;
    }
    true
}

/// Parse the characters of `v` as `str::parse::<usize>` would.
pub fn parse_usize_chars(v: &Vec<char>) -> (r: Option<usize>)
    ensures
        match r {
            Some(n) => parse_usize_spec(v@) == Some(n as int),
            None => parse_usize_spec(v@) is None,
        },
{
    let n: usize = v.len();
    let mut start: usize = 0;
    if n > 0 && v[0] == '+' {
        start = 1;
    }
    let ghost t = strip_plus(v@);
    if start == n {
        return None;
    }
    let mut acc: usize = 0;
    let mut i: usize = start;
    while i < n
        invariant
            start <= i <= n,
            start <= 1,
            n == v@.len(),
            start < n,
            t == strip_plus(v@),
            t =~= v@.subrange(start as int, n as int),
            forall|j: int| 0 <= j < i - start ==> is_ascii_digit_char(t[j]),
            acc == digits_val(t.take(i - start)),
        decreases n - i,
    {
        let ch: char = v[i];
        let c: u32 = ch as u32;
        proof {
            assert(t[i - start] == v@[i as int]);
        }
        if c < 48 || c > 57 {
            proof {
                assert(!is_ascii_digit_char(t[i - start]));
            }
            return None;
        }
        let d: usize = (c - 48) as usize;
        proof {
            assert(is_ascii_digit_char(t[i - start]));
            assert(t.take(i - start + 1).drop_last() =~= t.take(i - start));
            assert(t.take(i - start + 1).last() == t[i - start]);
            assert(digits_val(t.take(i - start + 1)) == acc * 10 + d);
        }
        if acc > (usize::MAX - d) / 10 {
            // The numeral exceeds usize::MAX: every longer prefix is larger.
            proof {
                assert(acc * 10 + d > usize::MAX) by {
                    assert(acc >= (usize::MAX - d) / 10 + 1);
                    assert(((usize::MAX - d) / 10 + 1) * 10 == ((usize::MAX - d) / 10) * 10 + 10)
                        by (nonlinear_arith);
                    assert(acc * 10 >= ((usize::MAX - d) / 10 + 1) * 10) by (nonlinear_arith)
                        requires
                            acc >= (usize::MAX - d) / 10 + 1,
                    ;
                    vstd::arithmetic::div_mod::lemma_fundamental_div_mod(
                        usize::MAX - d,
                        10,
                    );
                    vstd::arithmetic::div_mod::lemma_mod_division_less_than_divisor(
                        usize::MAX - d,
                        10,
                    );
                }
                if all_ascii_digits(t) {
                    assert(digits_val(t.take(i - start + 1)) == acc * 10 + d);
                    lemma_digits_val_prefix(t, i - start + 1);
                }
            }
            return None;
        }
        proof {
            assert(acc * 10 + d <= usize::MAX) by {
                assert(acc <= (usize::MAX - d) / 10);
                assert(acc * 10 <= ((usize::MAX - d) / 10) * 10) by (nonlinear_arith)
                    requires
                        acc <= (usize::MAX - d) / 10,
                ;
                vstd::arithmetic::div_mod::lemma_fundamental_div_mod(usize::MAX - d, 10);
                vstd::arithmetic::div_mod::lemma_mod_division_less_than_divisor(
                    usize::MAX - d,
                    10,
                );
            }
        }
        acc = acc * 10 + d;
        i += 1;
    }
    proof {
        assert(t.take(i - start) =~= t);
    }
    Some(acc)
}

} // verus!
