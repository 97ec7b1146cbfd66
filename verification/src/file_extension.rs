//! The `sNp` file-extension grammar: an extension names a supported
//! Touchstone file exactly when it is `s`, then the port count written in
//! decimal without a leading zero, then `p`.

use vstd::prelude::*;

verus! {

/// A decimal digit.
pub open spec fn is_digit(c: char) -> bool {
    '0' <= c && c <= '9'
}

/// The numeric value of a decimal digit; zero for any other character.
pub open spec fn digit_val(c: char) -> int {
    match c {
        '0' => 0,
        '1' => 1,
        '2' => 2,
        '3' => 3,
        '4' => 4,
        '5' => 5,
        '6' => 6,
        '7' => 7,
        '8' => 8,
        '9' => 9,
        _ => 0,
    }
}

/// The base-10 value of a digit string, most significant digit first.
pub open spec fn digits_value(s: Seq<char>) -> int
    decreases s.len(),
{
    if s.len() == 0 {
        0
    } else {
        digits_value(s.drop_last()) * 10 + digit_val(s.last())
    }
}

/// The `sNp` grammar: first character `s`, last character `p`, in between a
/// nonempty run of digits with no leading zero (hence a port count of at
/// least 1).
pub open spec fn spec_valid_extension(s: Seq<char>) -> bool {
    &&& s.len() >= 3
    &&& s[0] == 's'
    &&& s[s.len() - 1] == 'p'
    &&& (forall|i: int| 1 <= i < s.len() - 1 ==> is_digit(#[trigger] s[i]))
    &&& s[1] != '0'
}

/// The port count an extension declares: the value of its digit run.
pub open spec fn spec_extension_ports(s: Seq<char>) -> int {
    digits_value(s.subrange(1, s.len() - 1))
}

pub proof fn lemma_digits_value_nonneg(s: Seq<char>)
    ensures
        0 <= digits_value(s),
    decreases s.len(),
{
    if s.len() > 0 {
        lemma_digits_value_nonneg(s.drop_last());
    }
}

/// A digit string's value is at least the value of any of its prefixes.
pub proof fn lemma_digits_value_prefix(s: Seq<char>, i: int)
    requires
        0 <= i <= s.len(),
    ensures
        digits_value(s.take(i)) <= digits_value(s),
    decreases s.len(),
{
    if i < s.len() {
        lemma_digits_value_nonneg(s.drop_last());
        assert(s.take(i) =~= s.drop_last().take(i));
        lemma_digits_value_prefix(s.drop_last(), i);
    } else {
        assert(s.take(i) =~= s);
    }
}

/// A valid extension declares at least one port: its digit run is
/// nonempty and does not start with `0`.
pub proof fn lemma_extension_ports_positive(s: Seq<char>)
    requires
        spec_valid_extension(s),
    ensures
        spec_extension_ports(s) >= 1,
{
    let mid = s.subrange(1, s.len() - 1);
    lemma_digits_value_prefix(mid, 1);
    assert(mid.take(1).drop_last() =~= Seq::<char>::empty());
    assert(mid.take(1).len() == 1);
    assert(mid.take(1).last() == mid[0]);
    assert(digits_value(Seq::<char>::empty()) == 0);
    assert(digits_value(mid.take(1)) == digit_val(mid[0]));
    assert(mid[0] == s[1]);
    assert(digit_val(mid[0]) >= 1);
}

/// The index of the last `.` in `s`, or `-1` if there is none.
pub open spec fn last_dot(s: Seq<char>) -> int
    decreases s.len(),
{
    if s.len() == 0 {
        -1
    } else if s.last() == '.' {
        s.len() - 1
    } else {
        last_dot(s.drop_last())
    }
}

/// The extension a path carries: everything after its last `.`, or the
/// whole path when it has no `.` (matching taking the last piece of a
/// split on `.`).
pub open spec fn extension_of(s: Seq<char>) -> Seq<char> {
    s.skip(last_dot(s) + 1)
}

pub proof fn lemma_last_dot_at(s: Seq<char>, j: int)
    requires
        -1 <= j < s.len(),
        j >= 0 ==> s[j] == '.',
        forall|k: int| j < k < s.len() ==> s[k] != '.',
    ensures
        last_dot(s) == j,
    decreases s.len(),
{
    if s.len() > 0 && s.last() != '.' {
        assert(forall|k: int| j < k < s.len() - 1 ==> s.drop_last()[k] == s[k]);
        lemma_last_dot_at(s.drop_last(), j);
    }
}

fn digit_value_of(c: char) -> (v: u8)
    ensures
        v == digit_val(c),
        !is_digit(c) ==> v == 0,
{
    match c {
        '0' => 0,
        '1' => 1,
        '2' => 2,
        '3' => 3,
        '4' => 4,
        '5' => 5,
        '6' => 6,
        '7' => 7,
        '8' => 8,
        '9' => 9,
        _ => 0,
    }
}

fn is_digit_char(c: char) -> (r: bool)
    ensures
        r == is_digit(c),
{
    '0' <= c && c <= '9'
}

/// Whether a file extension names a supported Touchstone file: `s`, a
/// decimal port count with no leading zero, then `p`.
pub fn is_valid_file_extension(file_type: &str) -> (r: bool)
    ensures
        r == spec_valid_extension(file_type@),
{
    let len = file_type.unicode_len();
    if len < 3 {
        return false;
    }
    if file_type.get_char(0) != 's' {
        return false;
    }
    if file_type.get_char(len - 1) != 'p' {
        return false;
    }
    if file_type.get_char(1) == '0' {
        return false;
    }
    let mut i: usize = 1;
    while i < len - 1
        invariant
            1 <= i <= len - 1,
            len == file_type@.len(),
            3 <= len,
            forall|j: int| 1 <= j < i ==> is_digit(#[trigger] file_type@[j]),
        decreases len - 1 - i,
    {
        if !is_digit_char(file_type.get_char(i)) {
            return false;
        }
        i = i + 1;
    }
    true
}

/// The part of a path after its last `.`, or the whole path if it has
/// none.
pub fn extension_part(path: &str) -> (r: &str)
    ensures
        r@ == extension_of(path@),
{
    let len = path.unicode_len();
    let mut j: usize = len;
    while j > 0
        invariant
            j <= len,
            len == path@.len(),
            forall|k: int| j <= k < len ==> path@[k] != '.',
        decreases j,
    {
        if path.get_char(j - 1) == '.' {
            proof {
                lemma_last_dot_at(path@, j - 1);
            }
            return path.substring_char(j, len);
        }
        j = j - 1;
    }
    proof {
        lemma_last_dot_at(path@, -1);
        assert(path@.skip(0) =~= path@);
    }
    path
}

/// The port count a valid extension declares, if it fits the machine:
/// `None` exactly when the digit run's value is over `usize::MAX`.
pub fn extension_ports(ext: &str) -> (r: Option<usize>)
    requires
        spec_valid_extension(ext@),
    ensures
        match r {
            Some(v) => v == spec_extension_ports(ext@),
            None => spec_extension_ports(ext@) > usize::MAX,
        },
{
    let len = ext.unicode_len();
    let ghost mid = ext@.subrange(1, len - 1);
    let mut v: usize = 0;
    let mut i: usize = 1;
    while i < len - 1
        invariant
            1 <= i <= len - 1,
            len == ext@.len(),
            3 <= len,
            mid == ext@.subrange(1, len - 1),
            v == digits_value(mid.take(i - 1)),
        decreases len - 1 - i,
    {
        let d = digit_value_of(ext.get_char(i));
        proof {
            assert(mid[i - 1] == ext@[i as int]);
            assert(mid.take(i as int).drop_last() =~= mid.take(i - 1));
        }
        if v > (usize::MAX - (d as usize)) / 10 {
            proof {
                lemma_digits_value_nonneg(mid.take(i - 1));
                assert(digits_value(mid.take(i as int)) > usize::MAX);
                lemma_digits_value_prefix(mid, i as int);
            }
            return None;
        }
        v = v * 10 + (d as usize);
        i = i + 1;
    }
    proof {
        assert(mid.take(len - 2) =~= mid);
    }
    Some(v)
}

} // verus!

