//! Reading numbers out of text: unsigned integers as `str::parse::<u64>`
//! reads them, and the decimal-number shape that `str::parse::<f64>` accepts.

use vstd::prelude::*;
use vstd::string::*;

verus! {

/// Whether `c` is an ASCII decimal digit.
pub open spec fn is_digit(c: char) -> bool {
    '0' <= c && c <= '9'
}

/// The value of the decimal digit `c`.
pub open spec fn digit_value(c: char) -> nat {
    (c as nat - '0' as nat) as nat
}

/// Whether every character of `s` is a decimal digit.
pub open spec fn all_digits(s: Seq<char>) -> bool {
    forall|i: int| 0 <= i < s.len() ==> is_digit(#[trigger] s[i])
}

/// The value of a string of decimal digits (leading zeros allowed).
pub open spec fn digits_value(s: Seq<char>) -> nat
    decreases s.len(),
{
    if s.len() == 0 {
        0
    } else {
        digits_value(s.drop_last()) * 10 + digit_value(s.last())
    }
}

/// The digits of an unsigned literal: the text without one leading `+`.
pub open spec fn unsigned_digits(s: Seq<char>) -> Seq<char> {
    if s.len() > 0 && s[0] == '+' {
        s.skip(1)
    } else {
        s
    }
}

/// What `str::parse::<u64>` gives for `s`: an optional `+` followed by at least
/// one decimal digit and nothing else, whose value fits in 64 bits.
pub open spec fn u64_text_value(s: Seq<char>) -> Option<u64> {
    let d = unsigned_digits(s);
    if d.len() > 0 && all_digits(d) && digits_value(d) <= u64::MAX {
        Some(digits_value(d) as u64)
    } else {
        None
    }
}

proof fn lemma_digits_value_push(s: Seq<char>, c: char)
    ensures
        digits_value(s.push(c)) == digits_value(s) * 10 + digit_value(c),
{
    assert(s.push(c).drop_last() =~= s);
}

/// Reads an unsigned 64-bit integer the way `str::parse::<u64>` does.
pub fn parse_u64(s: &str) -> (r: Option<u64>)
    ensures
        r == u64_text_value(s@),
{
    let n = s.unicode_len();
    let mut start: usize = 0;
    if n > 0 && s.get_char(0) == '+' {
        start = 1;
    }
    let ghost d = unsigned_digits(s@);
    assert(d =~= s@.subrange(start as int, n as int));
    if start == n {
        return None;
    }
    let mut value: u64 = 0;
    let mut overflow = false;
    let mut i: usize = start;
    while i < n
        invariant
            start <= i <= n,
            n == s@.len(),
            d =~= s@.subrange(start as int, n as int),
            d == unsigned_digits(s@),
            all_digits(s@.subrange(start as int, i as int)),
            !overflow ==> value == digits_value(s@.subrange(start as int, i as int)),
            overflow ==> digits_value(s@.subrange(start as int, i as int)) > u64::MAX,
        decreases n - i,
    {
        let c = s.get_char(i);
        if !('0' <= c && c <= '9') {
            assert(!is_digit(d[i - start]));
            assert(!all_digits(unsigned_digits(s@)));
            return None;
        }
        proof {
            lemma_digits_value_push(s@.subrange(start as int, i as int), c);
            assert(s@.subrange(start as int, i as int).push(c) =~= s@.subrange(
                start as int,
                i + 1,
            ));
        }
        let digit = (c as u32 - '0' as u32) as u64;
        if !overflow {
            if value > (u64::MAX - digit) / 10 {
                overflow = true;
            } else {
                value = value * 10 + digit;
            }
        }
        i = i + 1;
    }
    assert(s@.subrange(start as int, n as int) =~= d);
    if overflow {
        None
    } else {
        Some(value)
    }
}

/// The index of the first character at or after `from` that is not a digit
/// (the length of `s` when there is none).
pub open spec fn digit_run_end(s: Seq<char>, from: int) -> int
    decreases s.len() - from,
{
    if 0 <= from < s.len() && is_digit(s[from]) {
        digit_run_end(s, from + 1)
    } else {
        from
    }
}

/// `c` in lower case, for ASCII letters.
pub open spec fn ascii_lower(c: char) -> char {
    if 'A' <= c && c <= 'Z' {
        (((c as u8) + 32) as u8) as char
    } else {
        c
    }
}

/// Whether `s` equals `word` when its ASCII letters are lowered.
pub open spec fn lower_equals(s: Seq<char>, word: Seq<char>) -> bool {
    s.len() == word.len() && forall|i: int| 0 <= i < s.len() ==> ascii_lower(#[trigger] s[i]) == word[i]
}

/// The text without one leading sign.
pub open spec fn unsigned_part(s: Seq<char>) -> Seq<char> {
    if s.len() > 0 && (s[0] == '+' || s[0] == '-') {
        s.skip(1)
    } else {
        s
    }
}

/// Whether `r` is a decimal number: digits with an optional fraction (at least
/// one digit on either side of the point), then an optional exponent.
pub open spec fn decimal_number(r: Seq<char>) -> bool {
    let a = digit_run_end(r, 0);
    let has_point = a < r.len() && r[a] == '.';
    let frac_end = if has_point {
        digit_run_end(r, a + 1)
    } else {
        a
    };
    let mantissa = a > 0 || (has_point && frac_end > a + 1);
    let exp_digits = if frac_end + 1 < r.len() && (r[frac_end + 1] == '+' || r[frac_end + 1]
        == '-') {
        frac_end + 2
    } else {
        frac_end + 1
    };
    &&& mantissa
    &&& (frac_end == r.len() || (ascii_lower(r[frac_end]) == 'e' && digit_run_end(r, exp_digits)
        > exp_digits && digit_run_end(r, exp_digits) == r.len()))
}

/// Whether `str::parse::<f64>` accepts `s`: an optional sign followed by `inf`,
/// `infinity`, `nan` or a decimal number, letters in either case, and nothing
/// else (no surrounding white space).
pub open spec fn float_text(s: Seq<char>) -> bool {
    let r = unsigned_part(s);
    lower_equals(r, seq!['i', 'n', 'f']) || lower_equals(r, seq!['i', 'n', 'f', 'i', 'n', 'i', 't', 'y'])
        || lower_equals(r, seq!['n', 'a', 'n']) || decimal_number(r)
}

/// Lowers an ASCII letter.
fn lower_char(c: char) -> (r: char)
    ensures
        r == ascii_lower(c),
{
    if 'A' <= c && c <= 'Z' {
        ((c as u8) + 32) as char
    } else {
        c
    }
}

/// Whether the characters of `s` from `from` on equal `word` once lowered.
fn lower_equals_from(s: &str, from: usize, word: &str) -> (r: bool)
    requires
        from <= s@.len(),
    ensures
        r == lower_equals(s@.skip(from as int), word@),
{
    let n = s.unicode_len();
    let m = word.unicode_len();
    if n - from != m {
        return false;
    }
    let mut i: usize = 0;
    while i < m
        invariant
            n == s@.len(),
            m == word@.len(),
            n - from == m,
            i <= m,
            forall|k: int| 0 <= k < i ==> ascii_lower(#[trigger] s@.skip(from as int)[k]) == word@[k],
        decreases m - i,
    {
        if lower_char(s.get_char(from + i)) != word.get_char(i) {
            assert(s@.skip(from as int)[i as int] == s@[from + i]);
            return false;
        }
        i = i + 1;
    }
    true
}

/// The end of the run of digits in `s` that starts at `from`.
fn digit_run(s: &str, from: usize) -> (r: usize)
    requires
        from <= s@.len(),
    ensures
        r as int == digit_run_end(s@, from as int),
        from <= r <= s@.len(),
{
    let n = s.unicode_len();
    let mut i = from;
    while i < n && is_digit_char(s.get_char(i))
        invariant
            from <= i <= n,
            n == s@.len(),
            digit_run_end(s@, i as int) == digit_run_end(s@, from as int),
        decreases n - i,
    {
        i = i + 1;
    }
    i
}

fn is_digit_char(c: char) -> (r: bool)
    ensures
        r == is_digit(c),
{
    '0' <= c && c <= '9'
}

/// Whether `str::parse::<f64>` accepts `s` (see `float_text`).
pub fn is_float_text(s: &str) -> (r: bool)
    ensures
        r == float_text(s@),
{
    proof {
        reveal_strlit("inf");
        reveal_strlit("infinity");
        reveal_strlit("nan");
    }
    let n = s.unicode_len();
    let mut start: usize = 0;
    if n > 0 && (s.get_char(0) == '+' || s.get_char(0) == '-') {
        start = 1;
    }
    let ghost r = unsigned_part(s@);
    assert(r =~= s@.skip(start as int));
    if lower_equals_from(s, start, "inf") || lower_equals_from(s, start, "infinity")
        || lower_equals_from(s, start, "nan") {
        return true;
    }
    let rest = s.substring_char(start, n);
    assert(rest@ =~= r);
    let len = rest.unicode_len();
    let a = digit_run(rest, 0);
    let has_point = a < len && rest.get_char(a) == '.';
    let frac_end = if has_point {
        digit_run(rest, a + 1)
    } else {
        a
    };
    let mantissa = a > 0 || (has_point && frac_end > a + 1);
    if !mantissa {
        return false;
    }
    if frac_end == len {
        return true;
    }
    if lower_char(rest.get_char(frac_end)) != 'e' {
        return false;
    }
    let exp_digits = if frac_end + 1 < len && (rest.get_char(frac_end + 1) == '+' || rest.get_char(
        frac_end + 1,
    ) == '-') {
        frac_end + 2
    } else {
        frac_end + 1
    };
    let exp_end = digit_run(rest, exp_digits);
    exp_end > exp_digits && exp_end == len
}

} // verus!
