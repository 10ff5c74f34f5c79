use vstd::prelude::*;

use crate::tokenizer::chars::is_ascii_digit_char;

verus! {

/// Index of the first non-digit character at or after `i`.
pub open spec fn digits_end(s: Seq<char>, i: int) -> int
    decreases s.len() - i,
{
    if 0 <= i < s.len() && is_ascii_digit_char(s[i]) {
        digits_end(s, i + 1)
    } else {
        i
    }
}

/// Whether the characters from `j` to the end form a valid exponent part:
/// either nothing, or `e`/`E`, an optional minus sign, and at least one digit
/// running to the end of the text.
pub open spec fn exponent_ok(s: Seq<char>, j: int) -> bool {
    if j == s.len() {
        true
    } else if 0 <= j < s.len() && (s[j] == 'e' || s[j] == 'E') {
        let k = if j + 1 < s.len() && s[j + 1] == '-' {
            j + 2
        } else {
            j + 1
        };
        k < s.len() && digits_end(s, k) == s.len()
    } else {
        false
    }
}

/// Whether `s` is a numeric literal: an optional minus sign, then either
/// digits with an optional fraction (`1`, `1.`, `1.5`) or a fraction alone
/// (`.5`), then an optional exponent (`e5`, `E-3`).
///
/// Over the characters a numeric scan can accumulate (`-`, `.`, `e`, `E` and
/// numeric characters), this is exactly the set of texts that parse as a
/// 64-bit floating-point value; anything else is dropped by the tokenizer.
pub open spec fn is_valid_number_text(s: Seq<char>) -> bool {
    let i0: int = if s.len() > 0 && s[0] == '-' {
        1
    } else {
        0
    };
    let d1 = digits_end(s, i0);
    if d1 > i0 {
        let j = if d1 < s.len() && s[d1] == '.' {
            digits_end(s, d1 + 1)
        } else {
            d1
        };
        exponent_ok(s, j)
    } else if i0 < s.len() && s[i0] == '.' {
        let j = digits_end(s, i0 + 1);
        j > i0 + 1 && exponent_ok(s, j)
    } else {
        false
    }
}

/// Whether `c` is an ASCII digit.
pub fn is_ascii_digit(c: char) -> (r: bool)
    ensures
        r == is_ascii_digit_char(c),
{
    c >= '0' && c <= '9'
}

fn digits_end_exec(s: &Vec<char>, i: usize) -> (r: usize)
    requires
        i <= s@.len(),
    ensures
        r == digits_end(s@, i as int),
        i <= r <= s@.len(),
{
    let mut j = i;
    loop
        invariant
            i <= j <= s@.len(),
            digits_end(s@, i as int) == digits_end(s@, j as int),
        decreases s@.len() - j,
    {
        if j < s.len() && is_ascii_digit(s[j]) {
            j = j + 1;
        } else {
            return j;
        }
    }
}

fn exponent_ok_exec(s: &Vec<char>, j: usize) -> (r: bool)
    requires
        j <= s@.len(),
    ensures
        r == exponent_ok(s@, j as int),
{
    if j == s.len() {
        return true;
    }
    let c = s[j];
    if c != 'e' && c != 'E' {
        return false;
    }
    let k = if j + 1 < s.len() && s[j + 1] == '-' {
        j + 2
    } else {
        j + 1
    };
    if k >= s.len() {
        return false;
    }
    digits_end_exec(s, k) == s.len()
}

/// Decides whether the accumulated text of a numeric scan is a valid numeric
/// literal; an invalid one yields no token.
pub fn check_number_text(s: &Vec<char>) -> (r: bool)
    ensures
        r == is_valid_number_text(s@),
{
    let i0: usize = if s.len() > 0 && s[0] == '-' {
        1
    } else {
        0
    };
    let d1 = digits_end_exec(s, i0);
    if d1 > i0 {
        let j = if d1 < s.len() && s[d1] == '.' {
            digits_end_exec(s, d1 + 1)
        } else {
            d1
        };
        exponent_ok_exec(s, j)
    } else if i0 < s.len() && s[i0] == '.' {
        let j = digits_end_exec(s, i0 + 1);
        j > i0 + 1 && exponent_ok_exec(s, j)
    } else {
        false
    }
}

} // verus!
