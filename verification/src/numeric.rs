//! The grammar of the numeric tokens a Touchstone file may carry: the
//! strings `str::parse::<f64>` accepts.  An optional sign, and either one of
//! the keywords `inf`, `infinity`, `nan` (case-insensitively) or a decimal
//! number with at least one digit, an optional fraction, and an optional
//! exponent.

use vstd::prelude::*;

use crate::file_extension::is_digit;
use crate::text::lower;
use crate::text::lower_string;
use crate::text::str_eq;

verus! {

/// The number of consecutive decimal digits at the front of `s`.
pub open spec fn leading_digits(s: Seq<char>) -> int
    decreases s.len(),
{
    if s.len() > 0 && is_digit(s[0]) {
        1 + leading_digits(s.skip(1))
    } else {
        0
    }
}


/// If the first `j` characters are digits and position `j` is the end or a
/// non-digit, the digit run has length exactly `j`.
pub proof fn lemma_leading_digits_at(s: Seq<char>, j: int)
    requires
        0 <= j <= s.len(),
        forall|k: int| 0 <= k < j ==> is_digit(#[trigger] s[k]),
        j < s.len() ==> !is_digit(s[j]),
    ensures
        leading_digits(s) == j,
    decreases s.len(),
{
    if s.len() > 0 && j > 0 {
        assert(forall|k: int| 0 <= k < j - 1 ==> is_digit(#[trigger] s.skip(1)[k]));
        lemma_leading_digits_at(s.skip(1), j - 1);
    }
}

/// An exponent part: `e` or `E`, an optional sign, and at least one digit
/// running to the end.
pub open spec fn is_exponent(x: Seq<char>) -> bool {
    &&& x.len() >= 2
    &&& (x[0] == 'e' || x[0] == 'E')
    &&& {
        let t = if x[1] == '+' || x[1] == '-' {
            x.skip(2)
        } else {
            x.skip(1)
        };
        t.len() > 0 && leading_digits(t) == t.len()
    }
}

/// An unsigned number: digits, an optional `.` with more digits, at least
/// one digit in all, and an optional exponent.
pub open spec fn is_number(s: Seq<char>) -> bool {
    let d1 = leading_digits(s);
    let rest = s.skip(d1);
    if rest.len() > 0 && rest[0] == '.' {
        let d2 = leading_digits(rest.skip(1));
        let rest2 = rest.skip(1 + d2);
        d1 + d2 > 0 && (rest2.len() == 0 || is_exponent(rest2))
    } else {
        d1 > 0 && (rest.len() == 0 || is_exponent(rest))
    }
}

/// The strings `str::parse::<f64>` accepts: an optional sign, and one of
/// the special keywords (case-insensitively) or a number.
pub open spec fn is_f64_literal(s: Seq<char>) -> bool {
    let body = if s.len() > 0 && (s[0] == '+' || s[0] == '-') {
        s.skip(1)
    } else {
        s
    };
    ||| lower(body) == "inf"@
    ||| lower(body) == "infinity"@
    ||| lower(body) == "nan"@
    ||| is_number(body)
}

/// Returns the first position at or after `from` that is not a decimal
/// digit (or the length), so the digit run starting at `from` has length
/// `j - from`.
fn scan_digits(s: &str, from: usize) -> (j: usize)
    requires
        from <= s@.len(),
    ensures
        from <= j <= s@.len(),
        leading_digits(s@.skip(from as int)) == j - from,
        forall|k: int| from <= k < j ==> is_digit(#[trigger] s@[k]),
        j < s@.len() ==> !is_digit(s@[j as int]),
    decreases s@.len() - from,
{
    let len = s.unicode_len();
    let mut j: usize = from;
    while j < len
        invariant
            from <= j <= len,
            len == s@.len(),
            forall|k: int| from <= k < j ==> is_digit(#[trigger] s@[k]),
        ensures
            from <= j <= len,
            forall|k: int| from <= k < j ==> is_digit(#[trigger] s@[k]),
            j < len ==> !is_digit(s@[j as int]),
        decreases len - j,
    {
        let c = s.get_char(j);
        if !('0' <= c && c <= '9') {
            break ;
        }
        j = j + 1;
    }
    proof {
        let t = s@.skip(from as int);
        assert(forall|k: int| 0 <= k < j - from ==> is_digit(#[trigger] t[k]));
        if j < len {
            assert(t[j - from] == s@[j as int]);
        }
        lemma_leading_digits_at(t, j - from);
    }
    j
}

/// Whether the suffix of `s` starting at `from` is an exponent part.
fn check_exponent(s: &str, from: usize) -> (r: bool)
    requires
        from <= s@.len(),
    ensures
        r == is_exponent(s@.skip(from as int)),
{
    let len = s.unicode_len();
    let ghost x = s@.skip(from as int);
    if len - from < 2 {
        return false;
    }
    let c0 = s.get_char(from);
    proof {
        assert(x[0] == c0);
    }
    if !(c0 == 'e' || c0 == 'E') {
        return false;
    }
    let c1 = s.get_char(from + 1);
    proof {
        assert(x[1] == c1);
    }
    let q: usize = if c1 == '+' || c1 == '-' {
        from + 2
    } else {
        from + 1
    };
    proof {
        if c1 == '+' || c1 == '-' {
            assert(x.skip(2) =~= s@.skip(q as int));
        } else {
            assert(x.skip(1) =~= s@.skip(q as int));
        }
    }
    if q >= len {
        return false;
    }
    let j = scan_digits(s, q);
    j == len
}

/// Whether `s` is a token `str::parse::<f64>` accepts.
pub fn parses_as_f64(s: &str) -> (r: bool)
    ensures
        r == is_f64_literal(s@),
{
    let len = s.unicode_len();
    let start: usize = if len > 0 {
        let c = s.get_char(0);
        if c == '+' || c == '-' {
            1
        } else {
            0
        }
    } else {
        0
    };
    let ghost body = s@.skip(start as int);
    proof {
        if start == 0 {
            assert(s@.skip(0) =~= s@);
        }
    }
    let tail = s.substring_char(start, len);
    proof {
        assert(tail@ =~= body);
    }
    let lowered = lower_string(tail);
    if str_eq(lowered.as_str(), "inf") || str_eq(lowered.as_str(), "infinity") || str_eq(
        lowered.as_str(),
        "nan",
    ) {
        return true;
    }
    // A decimal number: digits, an optional fraction, an optional exponent.
    let d1_end = scan_digits(s, start);
    let ghost d1 = d1_end - start;
    proof {
        assert(leading_digits(body) == d1);
        assert(body.skip(d1) =~= s@.skip(d1_end as int));
    }
    let ghost rest = body.skip(d1);
    if d1_end < len && s.get_char(d1_end) == '.' {
        proof {
            assert(rest[0] == s@[d1_end as int]);
        }
        let frac_start = d1_end + 1;
        proof {
            assert(rest.skip(1) =~= s@.skip(frac_start as int));
        }
        let d2_end = scan_digits(s, frac_start);
        let ghost d2 = d2_end - frac_start;
        proof {
            assert(leading_digits(rest.skip(1)) == d2);
            assert(rest.skip(1 + d2) =~= s@.skip(d2_end as int));
        }
        if d1_end == start && d2_end == frac_start {
            return false;
        }
        if d2_end == len {
            return true;
        }
        check_exponent(s, d2_end)
    } else {
        proof {
            if d1_end < len {
                assert(rest[0] == s@[d1_end as int]);
            }
        }
        if d1_end == start {
            return false;
        }
        if d1_end == len {
            return true;
        }
        check_exponent(s, d1_end)
    }
}

} // verus!
