//! Character-level text utilities the parsers are built on: whitespace
//! tokenization, line splitting, ASCII case folding, and inline-comment
//! stripping, each with an exact specification over `Seq<char>`.

use vstd::prelude::*;

verus! {

/// The code points `str::split_whitespace` separates on: the Unicode
/// white-space property.
pub open spec fn is_space(c: char) -> bool {
    ||| c == ' '
    ||| c == '\t'
    ||| c == '\n'
    ||| c == '\r'
    ||| c == '\u{000B}'
    ||| c == '\u{000C}'
    ||| c == '\u{0085}'
    ||| c == '\u{00A0}'
    ||| c == '\u{1680}'
    ||| ('\u{2000}' <= c && c <= '\u{200A}')
    ||| c == '\u{2028}'
    ||| c == '\u{2029}'
    ||| c == '\u{202F}'
    ||| c == '\u{205F}'
    ||| c == '\u{3000}'
}

pub fn is_space_char(c: char) -> (r: bool)
    ensures
        r == is_space(c),
{
    c == ' ' || c == '\t' || c == '\n' || c == '\r' || c == '\u{000B}' || c == '\u{000C}'
        || c == '\u{0085}' || c == '\u{00A0}' || c == '\u{1680}' || ('\u{2000}' <= c && c
        <= '\u{200A}') || c == '\u{2028}' || c == '\u{2029}' || c == '\u{202F}' || c == '\u{205F}'
        || c == '\u{3000}'
}

/// The views of a sequence of owned strings.
pub open spec fn seq_views(ts: Seq<String>) -> Seq<Seq<char>> {
    ts.map_values(|t: String| t@)
}

/// Left-to-right whitespace splitting with the token built so far and the
/// tokens already emitted.
pub open spec fn split_ws_rec(s: Seq<char>, cur: Seq<char>, acc: Seq<Seq<char>>) -> Seq<Seq<char>>
    decreases s.len(),
{
    if s.len() == 0 {
        if cur.len() == 0 {
            acc
        } else {
            acc.push(cur)
        }
    } else if is_space(s[0]) {
        if cur.len() == 0 {
            split_ws_rec(s.skip(1), Seq::empty(), acc)
        } else {
            split_ws_rec(s.skip(1), Seq::empty(), acc.push(cur))
        }
    } else {
        split_ws_rec(s.skip(1), cur.push(s[0]), acc)
    }
}

/// The whitespace-separated tokens of a string, in order, each nonempty:
/// the behaviour of `str::split_whitespace`.
pub open spec fn split_ws(s: Seq<char>) -> Seq<Seq<char>> {
    split_ws_rec(s, Seq::empty(), Seq::empty())
}

/// Appends one character to an owned string.
/// Relies on `String::push`: appends exactly the given character.
#[verifier::external_body]
pub fn push_char(s: &mut String, c: char)
    ensures
        final(s)@ == old(s)@.push(c),
{
    s.push(c);
}

/// Compares two string slices.
/// Relies on `str`'s `PartialEq`: equal exactly when the character
/// sequences are equal.
#[verifier::external_body]
pub fn str_eq(a: &str, b: &str) -> (r: bool)
    ensures
        r == (a@ == b@),
{
    a == b
}

/// The whitespace-separated tokens of `s`, as owned strings.
pub fn split_whitespace_tokens(s: &str) -> (tokens: Vec<String>)
    ensures
        seq_views(tokens@) == split_ws(s@),
{
    let len = s.unicode_len();
    let mut tokens: Vec<String> = Vec::new();
    let mut cur: String = String::new();
    let mut i: usize = 0;
    proof {
        assert(s@.skip(0) =~= s@);
        assert(seq_views(tokens@) =~= Seq::<Seq<char>>::empty());
    }
    while i < len
        invariant
            i <= len,
            len == s@.len(),
            split_ws_rec(s@.skip(i as int), cur@, seq_views(tokens@)) == split_ws(s@),
        decreases len - i,
    {
        let c = s.get_char(i);
        proof {
            assert(s@.skip(i as int)[0] == c);
            assert(s@.skip(i as int).skip(1) =~= s@.skip(i + 1));
        }
        if is_space_char(c) {
            if !cur.as_str().is_empty() {
                proof {
                    assert(seq_views(tokens@.push(cur)) =~= seq_views(tokens@).push(cur@));
                }
                tokens.push(cur);
                cur = String::new();
            } else {
                proof {
                    assert(cur@ =~= Seq::<char>::empty());
                }
            }
        } else {
            push_char(&mut cur, c);
        }
        i = i + 1;
    }
    proof {
        assert(s@.skip(len as int) =~= Seq::<char>::empty());
    }
    if !cur.as_str().is_empty() {
        proof {
            assert(seq_views(tokens@.push(cur)) =~= seq_views(tokens@).push(cur@));
        }
        tokens.push(cur);
    }
    tokens
}

/// Whether a string starts with the given character.
pub fn first_char_is(s: &str, c: char) -> (r: bool)
    ensures
        r == (s@.len() > 0 && s@[0] == c),
{
    if s.unicode_len() == 0 {
        false
    } else {
        s.get_char(0) == c
    }
}

/// The index of the first `!` in `s`, or `s.len()` if there is none.
pub open spec fn first_bang(s: Seq<char>) -> int
    decreases s.len(),
{
    if s.len() == 0 {
        0
    } else if s[0] == '!' {
        0
    } else {
        1 + first_bang(s.skip(1))
    }
}


/// If no `!` occurs before `j`, and `j` is the end or holds `!`, `j` is
/// the first `!` position.
pub proof fn lemma_first_bang_at(s: Seq<char>, j: int)
    requires
        0 <= j <= s.len(),
        forall|k: int| 0 <= k < j ==> s[k] != '!',
        j < s.len() ==> s[j] == '!',
    ensures
        first_bang(s) == j,
    decreases s.len(),
{
    if s.len() > 0 && j > 0 {
        assert(s.skip(1).len() == s.len() - 1);
        assert(forall|k: int| 0 <= k < j - 1 ==> s.skip(1)[k] == s[k + 1]);
        lemma_first_bang_at(s.skip(1), j - 1);
    }
}

/// The part of a line before any inline `!` comment.
pub open spec fn strip_inline_comment(s: Seq<char>) -> Seq<char> {
    s.take(first_bang(s))
}

/// Returns the prefix of `line` before its first `!`, or all of it if none.
pub fn strip_comment(line: &str) -> (r: &str)
    ensures
        r@ == strip_inline_comment(line@),
{
    let len = line.unicode_len();
    let mut i: usize = 0;
    while i < len
        invariant
            i <= len,
            len == line@.len(),
            forall|k: int| 0 <= k < i ==> line@[k] != '!',
        decreases len - i,
    {
        if line.get_char(i) == '!' {
            proof {
                lemma_first_bang_at(line@, i as int);
            }
            return line.substring_char(0, i);
        }
        i = i + 1;
    }
    proof {
        lemma_first_bang_at(line@, len as int);
        assert(line@.take(len as int) =~= line@);
    }
    line
}

/// ASCII case folding of one character: `A` through `Z` map to their
/// lower-case forms, every other character is unchanged.
pub open spec fn lower_char(c: char) -> char {
    match c {
        'A' => 'a',
        'B' => 'b',
        'C' => 'c',
        'D' => 'd',
        'E' => 'e',
        'F' => 'f',
        'G' => 'g',
        'H' => 'h',
        'I' => 'i',
        'J' => 'j',
        'K' => 'k',
        'L' => 'l',
        'M' => 'm',
        'N' => 'n',
        'O' => 'o',
        'P' => 'p',
        'Q' => 'q',
        'R' => 'r',
        'S' => 's',
        'T' => 't',
        'U' => 'u',
        'V' => 'v',
        'W' => 'w',
        'X' => 'x',
        'Y' => 'y',
        'Z' => 'z',
        _ => c,
    }
}

pub fn lower_char_of(c: char) -> (r: char)
    ensures
        r == lower_char(c),
{
    match c {
        'A' => 'a',
        'B' => 'b',
        'C' => 'c',
        'D' => 'd',
        'E' => 'e',
        'F' => 'f',
        'G' => 'g',
        'H' => 'h',
        'I' => 'i',
        'J' => 'j',
        'K' => 'k',
        'L' => 'l',
        'M' => 'm',
        'N' => 'n',
        'O' => 'o',
        'P' => 'p',
        'Q' => 'q',
        'R' => 'r',
        'S' => 's',
        'T' => 't',
        'U' => 'u',
        'V' => 'v',
        'W' => 'w',
        'X' => 'x',
        'Y' => 'y',
        'Z' => 'z',
        _ => c,
    }
}

/// ASCII case folding of a whole character sequence.
pub open spec fn lower(s: Seq<char>) -> Seq<char> {
    s.map_values(|c: char| lower_char(c))
}

/// The ASCII-lower-cased copy of a string slice.
pub fn lower_string(s: &str) -> (r: String)
    ensures
        r@ == lower(s@),
{
    let len = s.unicode_len();
    let mut out = String::new();
    let mut i: usize = 0;
    while i < len
        invariant
            i <= len,
            len == s@.len(),
            out@ == lower(s@.take(i as int)),
        decreases len - i,
    {
        push_char(&mut out, lower_char_of(s.get_char(i)));
        proof {
            assert(s@.take(i + 1).drop_last() =~= s@.take(i as int));
            assert(lower(s@.take(i + 1)) =~= lower(s@.take(i as int)).push(
                lower_char(s@[i as int]),
            ));
        }
        i = i + 1;
    }
    proof {
        assert(s@.take(len as int) =~= s@);
    }
    out
}

/// A well-formed token: nonempty, with no white-space character.
pub open spec fn ws_free(t: Seq<char>) -> bool {
    t.len() > 0 && forall|i: int| 0 <= i < t.len() ==> !is_space(#[trigger] t[i])
}

/// Scanning a space-free stretch only extends the token under
/// construction.
pub proof fn lemma_split_ws_consume(
    t: Seq<char>,
    rest: Seq<char>,
    cur: Seq<char>,
    acc: Seq<Seq<char>>,
)
    requires
        forall|i: int| 0 <= i < t.len() ==> !is_space(#[trigger] t[i]),
    ensures
        split_ws_rec(t + rest, cur, acc) == split_ws_rec(rest, cur + t, acc),
    decreases t.len(),
{
    if t.len() == 0 {
        assert(t + rest =~= rest);
        assert(cur + t =~= cur);
    } else {
        assert((t + rest)[0] == t[0]);
        assert((t + rest).skip(1) =~= t.skip(1) + rest);
        assert(cur.push(t[0]) + t.skip(1) =~= cur + t);
        lemma_split_ws_consume(t.skip(1), rest, cur.push(t[0]), acc);
    }
}

/// Tokens joined with one leading space each.
pub open spec fn sp_join(ts: Seq<Seq<char>>) -> Seq<char>
    decreases ts.len(),
{
    if ts.len() == 0 {
        Seq::empty()
    } else {
        " "@ + ts[0] + sp_join(ts.skip(1))
    }
}

pub proof fn lemma_sp_join_push(ts: Seq<Seq<char>>, t: Seq<char>)
    ensures
        sp_join(ts.push(t)) == sp_join(ts) + " "@ + t,
    decreases ts.len(),
{
    if ts.len() == 0 {
        assert(ts.push(t)[0] == t);
        assert(ts.push(t).skip(1) =~= Seq::<Seq<char>>::empty());
        assert(sp_join(Seq::<Seq<char>>::empty()) == Seq::<char>::empty());
        assert(sp_join(ts.push(t)) =~= sp_join(ts) + " "@ + t);
    } else {
        assert(ts.push(t)[0] == ts[0]);
        assert(ts.push(t).skip(1) =~= ts.skip(1).push(t));
        lemma_sp_join_push(ts.skip(1), t);
        assert(sp_join(ts.push(t)) =~= sp_join(ts) + " "@ + t);
    }
}

/// A space join carries no `!` if none of its tokens does.
pub proof fn lemma_sp_join_no_bang(ts: Seq<Seq<char>>)
    requires
        forall|k: int, i: int|
            0 <= k < ts.len() && 0 <= i < ts[k].len() ==> #[trigger] ts[k][i] != '!',
    ensures
        forall|i: int| 0 <= i < sp_join(ts).len() ==> #[trigger] sp_join(ts)[i] != '!',
    decreases ts.len(),
{
    reveal_strlit(" ");
    if ts.len() > 0 {
        assert(forall|k: int, i: int|
            0 <= k < ts.skip(1).len() && 0 <= i < ts.skip(1)[k].len() ==> #[trigger] ts.skip(
                1,
            )[k][i] != '!');
        lemma_sp_join_no_bang(ts.skip(1));
        let s = sp_join(ts);
        assert forall|i: int| 0 <= i < s.len() implies #[trigger] s[i] != '!' by {
            if i == 0 {
                assert(s[0] == ' ');
            } else if i < 1 + ts[0].len() {
                assert(s[i] == ts[0][i - 1]);
            } else {
                assert(s[i] == sp_join(ts.skip(1))[i - 1 - ts[0].len()]);
            }
        }
    }
}

/// Splitting a space join after a pending token yields the pending token
/// followed by the joined ones.
pub proof fn lemma_split_ws_sp_join(ts: Seq<Seq<char>>, cur: Seq<char>, acc: Seq<Seq<char>>)
    requires
        cur.len() > 0,
        forall|k: int| 0 <= k < ts.len() ==> ws_free(#[trigger] ts[k]),
    ensures
        split_ws_rec(sp_join(ts), cur, acc) == acc.push(cur) + ts,
    decreases ts.len(),
{
    reveal_strlit(" ");
    if ts.len() == 0 {
        assert(acc.push(cur) + ts =~= acc.push(cur));
    } else {
        let s = sp_join(ts);
        assert(s[0] == ' ');
        assert(is_space(' '));
        assert(s.skip(1) =~= ts[0] + sp_join(ts.skip(1)));
        lemma_split_ws_consume(ts[0], sp_join(ts.skip(1)), Seq::empty(), acc.push(cur));
        assert(Seq::<char>::empty() + ts[0] =~= ts[0]);
        lemma_split_ws_sp_join(ts.skip(1), ts[0], acc.push(cur));
        assert(acc.push(cur).push(ts[0]) + ts.skip(1) =~= acc.push(cur) + ts);
    }
}

/// The whitespace split of one leading token followed by a space join is
/// exactly the token list.
pub proof fn lemma_split_ws_line(first: Seq<char>, ts: Seq<Seq<char>>)
    requires
        ws_free(first),
        forall|k: int| 0 <= k < ts.len() ==> ws_free(#[trigger] ts[k]),
    ensures
        split_ws(first + sp_join(ts)) == seq![first] + ts,
{
    lemma_split_ws_consume(first, sp_join(ts), Seq::empty(), Seq::empty());
    assert(Seq::<char>::empty() + first =~= first);
    lemma_split_ws_sp_join(ts, first, Seq::empty());
    assert(Seq::<Seq<char>>::empty().push(first) + ts =~= seq![first] + ts);
}

/// A line fit for a text file: free of line breaks and carriage returns.
pub open spec fn line_ok(l: Seq<char>) -> bool {
    forall|i: int| 0 <= i < l.len() ==> #[trigger] l[i] != '\n' && l[i] != '\r'
}

/// Scanning a break-free stretch only extends the line under construction.
pub proof fn lemma_split_lines_consume(
    l: Seq<char>,
    rest: Seq<char>,
    cur: Seq<char>,
    acc: Seq<Seq<char>>,
)
    requires
        forall|i: int| 0 <= i < l.len() ==> #[trigger] l[i] != '\n',
    ensures
        split_lines_rec(l + rest, cur, acc) == split_lines_rec(rest, cur + l, acc),
    decreases l.len(),
{
    if l.len() == 0 {
        assert(l + rest =~= rest);
        assert(cur + l =~= cur);
    } else {
        assert((l + rest)[0] == l[0]);
        assert((l + rest).skip(1) =~= l.skip(1) + rest);
        assert(cur.push(l[0]) + l.skip(1) =~= cur + l);
        lemma_split_lines_consume(l.skip(1), rest, cur.push(l[0]), acc);
    }
}

/// Lines rendered as text, front first, each closed with `\n`.
pub open spec fn text_of_lines(ls: Seq<Seq<char>>) -> Seq<char>
    decreases ls.len(),
{
    if ls.len() == 0 {
        Seq::empty()
    } else {
        ls[0].push('\n') + text_of_lines(ls.skip(1))
    }
}

pub proof fn lemma_text_of_lines_concat(a: Seq<Seq<char>>, b: Seq<Seq<char>>)
    ensures
        text_of_lines(a + b) == text_of_lines(a) + text_of_lines(b),
    decreases a.len(),
{
    if a.len() == 0 {
        assert(a + b =~= b);
        assert(text_of_lines(a) + text_of_lines(b) =~= text_of_lines(b));
    } else {
        assert((a + b)[0] == a[0]);
        assert((a + b).skip(1) =~= a.skip(1) + b);
        lemma_text_of_lines_concat(a.skip(1), b);
        assert(text_of_lines(a + b) =~= text_of_lines(a) + text_of_lines(b));
    }
}

pub proof fn lemma_text_of_lines_push(ls: Seq<Seq<char>>, l: Seq<char>)
    ensures
        text_of_lines(ls.push(l)) == text_of_lines(ls) + l.push('\n'),
{
    assert(ls.push(l) =~= ls + seq![l]);
    lemma_text_of_lines_concat(ls, seq![l]);
    assert(seq![l].skip(1) =~= Seq::<Seq<char>>::empty());
    assert(text_of_lines(Seq::<Seq<char>>::empty()) == Seq::<char>::empty());
    assert(text_of_lines(seq![l]) =~= l.push('\n'));
}

pub proof fn lemma_split_lines_text_rec(ls: Seq<Seq<char>>, acc: Seq<Seq<char>>)
    requires
        forall|k: int| 0 <= k < ls.len() ==> line_ok(#[trigger] ls[k]),
    ensures
        split_lines_rec(text_of_lines(ls), Seq::empty(), acc) == acc + ls,
    decreases ls.len(),
{
    if ls.len() == 0 {
        assert(acc + ls =~= acc);
    } else {
        let tail = text_of_lines(ls.skip(1));
        assert(text_of_lines(ls) =~= ls[0] + (seq!['\n'] + tail));
        lemma_split_lines_consume(ls[0], seq!['\n'] + tail, Seq::empty(), acc);
        assert(Seq::<char>::empty() + ls[0] =~= ls[0]);
        assert((seq!['\n'] + tail)[0] == '\n');
        assert((seq!['\n'] + tail).skip(1) =~= tail);
        assert(drop_final_cr(ls[0]) == ls[0]);
        lemma_split_lines_text_rec(ls.skip(1), acc.push(ls[0]));
        assert(acc.push(ls[0]) + ls.skip(1) =~= acc + ls);
    }
}

/// Splitting the rendered text of break-free lines returns them exactly.
pub proof fn lemma_split_lines_text(ls: Seq<Seq<char>>)
    requires
        forall|k: int| 0 <= k < ls.len() ==> line_ok(#[trigger] ls[k]),
    ensures
        split_lines(text_of_lines(ls)) == ls,
{
    lemma_split_lines_text_rec(ls, Seq::empty());
    assert(Seq::<Seq<char>>::empty() + ls =~= ls);
}

/// Removes a `\r` that immediately precedes a line break.
pub open spec fn drop_final_cr(l: Seq<char>) -> Seq<char> {
    if l.len() > 0 && l.last() == '\r' {
        l.drop_last()
    } else {
        l
    }
}

/// Left-to-right line splitting with the line built so far and the lines
/// already emitted.
pub open spec fn split_lines_rec(s: Seq<char>, cur: Seq<char>, acc: Seq<Seq<char>>) -> Seq<
    Seq<char>,
>
    decreases s.len(),
{
    if s.len() == 0 {
        if cur.len() == 0 {
            acc
        } else {
            acc.push(cur)
        }
    } else if s[0] == '\n' {
        split_lines_rec(s.skip(1), Seq::empty(), acc.push(drop_final_cr(cur)))
    } else {
        split_lines_rec(s.skip(1), cur.push(s[0]), acc)
    }
}

/// The lines of a text, split at `\n` with a preceding `\r` removed, no
/// final empty line after a trailing line break: the behaviour of
/// `str::lines`.
pub open spec fn split_lines(s: Seq<char>) -> Seq<Seq<char>> {
    split_lines_rec(s, Seq::empty(), Seq::empty())
}

fn drop_final_cr_of(cur: String) -> (r: String)
    ensures
        r@ == drop_final_cr(cur@),
{
    let n = cur.unicode_len();
    if n > 0 && cur.as_str().get_char(n - 1) == '\r' {
        let r = cur.as_str().substring_char(0, n - 1);
        proof {
            assert(cur@.subrange(0, n - 1) =~= cur@.drop_last());
        }
        r.to_owned()
    } else {
        cur
    }
}

/// The lines of a text, as owned strings.
pub fn lines_of(s: &str) -> (lines: Vec<String>)
    ensures
        seq_views(lines@) == split_lines(s@),
{
    let len = s.unicode_len();
    let mut lines: Vec<String> = Vec::new();
    let mut cur: String = String::new();
    let mut i: usize = 0;
    proof {
        assert(s@.skip(0) =~= s@);
        assert(seq_views(lines@) =~= Seq::<Seq<char>>::empty());
    }
    while i < len
        invariant
            i <= len,
            len == s@.len(),
            split_lines_rec(s@.skip(i as int), cur@, seq_views(lines@)) == split_lines(s@),
        decreases len - i,
    {
        let c = s.get_char(i);
        proof {
            assert(s@.skip(i as int)[0] == c);
            assert(s@.skip(i as int).skip(1) =~= s@.skip(i + 1));
        }
        if c == '\n' {
            let done = drop_final_cr_of(cur);
            proof {
                assert(seq_views(lines@.push(done)) =~= seq_views(lines@).push(done@));
            }
            lines.push(done);
            cur = String::new();
        } else {
            push_char(&mut cur, c);
        }
        i = i + 1;
    }
    proof {
        assert(s@.skip(len as int) =~= Seq::<char>::empty());
    }
    if !cur.as_str().is_empty() {
        proof {
            assert(seq_views(lines@.push(cur)) =~= seq_views(lines@).push(cur@));
        }
        lines.push(cur);
    }
    lines
}

} // verus!
