//! Path-shape helpers for output-file naming: classifying a path string as
//! absolute, relative-with-separators, or a bare filename (Unix separator
//! convention), and spelling a path as a `file:` URL.

use vstd::prelude::*;

use crate::text::first_char_is;
use crate::text::push_char;

verus! {

/// The shape of a path string; exactly one flag is set.
pub struct FilePathConfig {
    pub absolute_path: bool,
    pub relative_path_with_separators: bool,
    pub bare_filename: bool,
}

/// Whether some character of `s` is `/`.
pub open spec fn has_separator(s: Seq<char>) -> bool {
    exists|i: int| 0 <= i < s.len() && s[i] == '/'
}

/// The shape a path string has: absolute when it starts with `/`,
/// relative-with-separators when it merely contains one, bare otherwise.
pub open spec fn spec_path_config(s: Seq<char>) -> (bool, bool, bool) {
    if s.len() > 0 && s[0] == '/' {
        (true, false, false)
    } else if has_separator(s) {
        (false, true, false)
    } else {
        (false, false, true)
    }
}

fn contains_separator(s: &str) -> (r: bool)
    ensures
        r == has_separator(s@),
{
    let len = s.unicode_len();
    let mut i: usize = 0;
    while i < len
        invariant
            i <= len,
            len == s@.len(),
            forall|k: int| 0 <= k < i ==> s@[k] != '/',
        decreases len - i,
    {
        if s.get_char(i) == '/' {
            return true;
        }
        i = i + 1;
    }
    false
}

/// Classifies a path string so the caller can decide how to name the
/// output placed beside it.
pub fn get_file_path_config(path_str: &str) -> (r: FilePathConfig)
    ensures
        (r.absolute_path, r.relative_path_with_separators, r.bare_filename) == spec_path_config(
            path_str@,
        ),
{
    if first_char_is(path_str, '/') {
        FilePathConfig {
            absolute_path: true,
            relative_path_with_separators: false,
            bare_filename: false,
        }
    } else if contains_separator(path_str) {
        FilePathConfig {
            absolute_path: false,
            relative_path_with_separators: true,
            bare_filename: false,
        }
    } else {
        FilePathConfig {
            absolute_path: false,
            relative_path_with_separators: false,
            bare_filename: true,
        }
    }
}

/// Backslashes unified to forward slashes.
pub open spec fn forward_slashes(s: Seq<char>) -> Seq<char> {
    s.map_values(
        |c: char|
            if c == '\\' {
                '/'
            } else {
                c
            },
    )
}

/// The `file:` URL a path spells: separators unified, `file://` before an
/// absolute path, `file:///` (as a drive-letter path needs) otherwise.
pub open spec fn spec_path_url(s: Seq<char>) -> Seq<char> {
    let cleaned = forward_slashes(s);
    if cleaned.len() > 0 && cleaned[0] == '/' {
        "file://"@ + cleaned
    } else {
        "file:///"@ + cleaned
    }
}

/// Spells a path as a `file:` URL.
pub fn path_to_url_manual(path_str: &str) -> (r: String)
    ensures
        r@ == spec_path_url(path_str@),
{
    let len = path_str.unicode_len();
    let mut cleaned = String::new();
    let mut i: usize = 0;
    while i < len
        invariant
            i <= len,
            len == path_str@.len(),
            cleaned@ == forward_slashes(path_str@.take(i as int)),
        decreases len - i,
    {
        let c = path_str.get_char(i);
        let mapped: char = if c == '\\' {
            '/'
        } else {
            c
        };
        push_char(&mut cleaned, mapped);
        proof {
            assert(path_str@.take(i + 1).drop_last() =~= path_str@.take(i as int));
            assert(forward_slashes(path_str@.take(i + 1)) =~= forward_slashes(
                path_str@.take(i as int),
            ).push(mapped));
        }
        i = i + 1;
    }
    proof {
        assert(path_str@.take(len as int) =~= path_str@);
    }
    let mut out: String = if first_char_is(cleaned.as_str(), '/') {
        "file://".to_owned()
    } else {
        "file:///".to_owned()
    };
    out.append(cleaned.as_str());
    out
}

} // verus!
