//! The spelling of number literals: the decimal floating-point grammar
//!
//! ```text
//! Number   ::= Sign? ( 'inf' | 'infinity' | 'nan' | Mantissa Exponent? )
//! Mantissa ::= Digit+ | Digit+ '.' Digit* | Digit* '.' Digit+
//! Exponent ::= 'e' Sign? Digit+
//! Sign     ::= '+' | '-'
//! Digit    ::= '0' ... '9'
//! ```
//!
//! in which letters match in either ASCII case. This is the set of texts that
//! the standard library parses as a 64-bit float.

use vstd::prelude::*;
use crate::text::chars_of;

verus! {

/// `'0' ... '9'`
pub open spec fn is_digit(c: char) -> bool {
    '0' <= c <= '9'
}

/// `'+' | '-'`
pub open spec fn is_sign(c: char) -> bool {
    c == '+' || c == '-'
}

/// `Digit*`
pub open spec fn all_digits(s: Seq<char>) -> bool {
    forall|i: int| 0 <= i < s.len() ==> is_digit(#[trigger] s[i])
}

/// `c` with an ASCII capital letter turned into its small letter.
pub open spec fn ascii_lower(c: char) -> char {
    if 'A' <= c <= 'Z' {
        ((c as u32) + 32) as char
    } else {
        c
    }
}

/// Whether `s` spells `word`, a word in small letters, in any mix of cases.
pub open spec fn spells(s: Seq<char>, word: Seq<char>) -> bool {
    &&& s.len() == word.len()
    &&& forall|i: int| 0 <= i < s.len() ==> ascii_lower(#[trigger] s[i]) == word[i]
}

/// `'inf' | 'infinity' | 'nan'`
pub open spec fn is_special(s: Seq<char>) -> bool {
    ||| spells(s, seq!['i', 'n', 'f'])
    ||| spells(s, seq!['i', 'n', 'f', 'i', 'n', 'i', 't', 'y'])
    ||| spells(s, seq!['n', 'a', 'n'])
}

/// Whether `s` has a dot at `d` with nothing but digits on both sides,
/// and at least one digit in all.
pub open spec fn is_dotted_at(s: Seq<char>, d: int) -> bool {
    &&& 0 <= d < s.len()
    &&& s[d] == '.'
    &&& s.len() > 1
    &&& all_digits(s.take(d))
    &&& all_digits(s.skip(d + 1))
}

/// `Digit+ | Digit+ '.' Digit* | Digit* '.' Digit+`
pub open spec fn is_mantissa(s: Seq<char>) -> bool {
    ||| s.len() > 0 && all_digits(s)
    ||| exists|d: int| is_dotted_at(s, d)
}

/// `'e' Sign? Digit+`
pub open spec fn is_exponent(s: Seq<char>) -> bool {
    &&& s.len() >= 2
    &&& (s[0] == 'e' || s[0] == 'E')
    &&& {
        let digits = if is_sign(s[1]) {
            s.skip(2)
        } else {
            s.skip(1)
        };
        digits.len() > 0 && all_digits(digits)
    }
}

/// Whether `s` splits at `m` into a mantissa and an optional exponent.
pub open spec fn is_finite_at(s: Seq<char>, m: int) -> bool {
    &&& 0 <= m <= s.len()
    &&& is_mantissa(s.take(m))
    &&& (m == s.len() || is_exponent(s.skip(m)))
}

/// `Mantissa Exponent?`
pub open spec fn is_finite(s: Seq<char>) -> bool {
    exists|m: int| is_finite_at(s, m)
}

/// `s` without its leading sign, if it has one.
pub open spec fn unsigned_part(s: Seq<char>) -> Seq<char> {
    if s.len() > 0 && is_sign(s[0]) {
        s.skip(1)
    } else {
        s
    }
}

/// Whether `s` is the text of a number literal.
pub open spec fn is_number_text(s: Seq<char>) -> bool {
    is_special(unsigned_part(s)) || is_finite(unsigned_part(s))
}

/// Whether `c` is a digit.
fn digit(c: char) -> (b: bool)
    ensures
        b == is_digit(c),
{
    let v: u32 = c as u32;
    0x30 <= v && v <= 0x39
}

/// The end of the run of digits that starts at `start`.
fn skip_digits(v: &[char], start: usize) -> (end: usize)
    requires
        start <= v.len(),
    ensures
        start <= end <= v.len(),
        forall|i: int| start <= i < end ==> is_digit(#[trigger] v@[i]),
        end < v.len() ==> !is_digit(v@[end as int]),
{
    let mut end = start;
    while end < v.len() && digit(v[end])
        invariant
            start <= end <= v.len(),
            forall|i: int| start <= i < end ==> is_digit(#[trigger] v@[i]),
        decreases v.len() - end,
    {
        end = end + 1;
    }
    end
}

/// The code of `c` with an ASCII capital letter turned into its small
/// letter.
fn lower(c: char) -> (r: u32)
    ensures
        r == ascii_lower(c) as u32,
        ascii_lower(c) as u32 == r,
{
    let v: u32 = c as u32;
    if 0x41 <= v && v <= 0x5A {
        v + 32
    } else {
        v
    }
}

/// Whether `v` spells `inf`, `infinity` or `nan`.
fn special(v: &[char]) -> (b: bool)
    ensures
        b == is_special(v@),
{
    let n = v.len();
    if n == 3 {
        let a = lower(v[0]);
        let b = lower(v[1]);
        let c = lower(v[2]);
        (a == 0x69 && b == 0x6E && c == 0x66) || (a == 0x6E && b == 0x61 && c == 0x6E)
    } else if n == 8 {
        lower(v[0]) == 0x69 && lower(v[1]) == 0x6E && lower(v[2]) == 0x66 && lower(v[3]) == 0x69
            && lower(v[4]) == 0x6E && lower(v[5]) == 0x69 && lower(v[6]) == 0x74 && lower(v[7])
            == 0x79
    } else {
        false
    }
}

/// Where a mantissa that ends at `m` has its digits: `whole` is the end of
/// the leading run of digits of `s`, and `m` is either `whole` or, past a dot
/// at `whole`, the end of the next run.
proof fn lemma_mantissa_end(s: Seq<char>, whole: int, m: int)
    requires
        0 <= whole <= s.len(),
        forall|i: int| 0 <= i < whole ==> is_digit(#[trigger] s[i]),
        whole < s.len() ==> !is_digit(s[whole]),
        0 <= m <= s.len(),
        is_mantissa(s.take(m)),
        m < s.len() ==> !is_digit(s[m]) && s[m] != '.',
    ensures
        whole <= m,
        whole == m || s[whole] == '.',
        forall|i: int| whole < i < m ==> is_digit(#[trigger] s[i]),
        m >= 1,
        whole < m ==> m >= 2,
{
    let t = s.take(m);
    if t.len() > 0 && all_digits(t) {
        assert forall|i: int| 0 <= i < m implies is_digit(#[trigger] s[i]) by {
            assert(t[i] == s[i]);
        }
        if whole < m {
            assert(is_digit(s[whole]));
        }
        if whole > m {
            assert(is_digit(s[m]));
        }
    } else {
        let d = choose|d: int| is_dotted_at(t, d);
        assert(t[d] == s[d]);
        assert forall|i: int| 0 <= i < d implies is_digit(#[trigger] s[i]) by {
            assert(t.take(d)[i] == s[i]);
        }
        assert forall|i: int| d < i < m implies is_digit(#[trigger] s[i]) by {
            assert(t.skip(d + 1)[i - d - 1] == s[i]);
        }
        if whole < d {
            assert(is_digit(s[whole]));
        }
        if whole > d {
            assert(is_digit(s[d]));
        }
    }
}

/// Whether `v` is a mantissa with or without an exponent. There is one
/// place at most where the mantissa can end: behind the first run of digits
/// and, if a dot follows, the run behind the dot.
fn finite(v: &[char]) -> (b: bool)
    ensures
        b == is_finite(v@),
{
    let n = v.len();
    let whole = skip_digits(v, 0);
    let mut m = whole;
    let mut digits = whole;
    if whole < n && v[whole] == '.' {
        m = skip_digits(v, whole + 1);
        digits = m - 1;
    }
    let ghost s = v@;
    // Each split point of `s` is `m`, and needs a digit.
    assert forall|k: int| is_finite_at(s, k) implies k == m && digits > 0 by {
        if k < s.len() {
            assert(s.skip(k)[0] == s[k]);
        }
        lemma_mantissa_end(s, whole as int, k);
        if whole < k {
            assert(s[whole as int] == '.');
            if k < m {
                assert(is_digit(s[k]));
            }
            if m < k {
                assert(is_digit(s[m as int]));
            }
        }
    }
    if digits == 0 {
        return false;
    }
    proof {
        let t = s.take(m as int);
        if m == whole {
            assert forall|i: int| 0 <= i < t.len() implies is_digit(#[trigger] t[i]) by {
                assert(t[i] == s[i]);
            }
        } else {
            assert(t[whole as int] == s[whole as int]);
            assert forall|i: int| 0 <= i < t.take(whole as int).len() implies is_digit(
                #[trigger] t.take(whole as int)[i],
            ) by {
                assert(t.take(whole as int)[i] == s[i]);
            }
            assert forall|i: int| 0 <= i < t.skip(whole + 1).len() implies is_digit(
                #[trigger] t.skip(whole + 1)[i],
            ) by {
                assert(t.skip(whole + 1)[i] == s[whole + 1 + i]);
            }
            assert(is_dotted_at(t, whole as int));
        }
        assert(is_mantissa(t));
    }
    if m == n {
        assert(is_finite_at(s, m as int));
        return true;
    }
    let ghost tail = s.skip(m as int);
    assert(tail[0] == s[m as int]);
    if m + 1 < n {
        assert(tail[1] == s[m + 1]);
    }
    if v[m] != 'e' && v[m] != 'E' {
        return false;
    }
    let mut c = m + 1;
    if c < n && (v[c] == '+' || v[c] == '-') {
        c = c + 1;
    }
    if c >= n {
        return false;
    }
    let end = skip_digits(v, c);
    let ghost ds = s.skip(c as int);
    assert(ds =~= if is_sign(tail[1]) {
        tail.skip(2)
    } else {
        tail.skip(1)
    });
    if end == n {
        assert forall|i: int| 0 <= i < ds.len() implies is_digit(#[trigger] ds[i]) by {
            assert(ds[i] == s[c + i]);
        }
        assert(is_finite_at(s, m as int));
        true
    } else {
        assert(ds[end - c] == s[end as int]);
        false
    }
}

/// Whether `value` is the text of a number literal.
pub fn is_number(value: &str) -> (b: bool)
    ensures
        b == is_number_text(value@),
{
    let v = chars_of(value);
    let n = v.len();
    let from: usize = if n > 0 && (v[0] == '+' || v[0] == '-') {
        1
    } else {
        0
    };
    let body = &v[from..n];
    assert(body@ =~= unsigned_part(value@));
    special(body) || finite(body)
}

} // verus!
