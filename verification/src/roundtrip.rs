//! Save-then-reload fidelity: the text a network renders to parses back to
//! that very network, token for token, for one- and two-port networks
//! whose parts are fit to stand in a file — comments that begin with `!`,
//! numeric tokens free of white space, canonical option fields.

use vstd::prelude::*;

use crate::data_line::needed_tokens;
use crate::data_line::rank_countable;
use crate::data_line::spec_parse_data_tokens;
use crate::data_line::all_f64_literals;
use crate::data_line::data_line_tokens;
use crate::data_line::sample_pairs;
use crate::data_line::SampleV;
use crate::errors::TouchstoneErrorV;
use crate::file_extension::extension_of;
use crate::file_extension::spec_extension_ports;
use crate::file_extension::spec_valid_extension;
use crate::network::initial_state;
use crate::network::network_of_state;
use crate::network::network_wf;
use crate::network::render_network;
use crate::network::render_lines;
use crate::network::render_row;
use crate::network::render_rows;
use crate::network::render_sample;
use crate::network::render_samples;
use crate::network::run_lines;
use crate::network::spec_parse_network;
use crate::network::step_line;
use crate::network::frequencies_of;
use crate::network::NetworkV;
use crate::network::ParseStateV;
use crate::numeric::is_f64_literal;
use crate::option_line::apply_option_token;
use crate::option_line::apply_option_tokens;
use crate::option_line::default_options;
use crate::text::lower;
use crate::option_line::option_token_class;
use crate::option_line::spec_parse_option_line;
use crate::option_line::OptionsV;
use crate::text::line_ok;
use crate::text::lemma_split_lines_text;
use crate::text::lemma_split_ws_line;
use crate::text::lemma_sp_join_no_bang;
use crate::text::lemma_sp_join_push;
use crate::text::lemma_first_bang_at;
use crate::text::lemma_text_of_lines_concat;
use crate::text::lemma_text_of_lines_push;
use crate::text::sp_join;
use crate::text::split_lines;
use crate::text::split_ws;
use crate::text::strip_inline_comment;
use crate::text::text_of_lines;
use crate::text::ws_free;
use crate::text::is_space;

verus! {

/// A comment line as the parser classifies one: it begins with `!` and is
/// fit to stand in a text file.
pub open spec fn comment_ok(c: Seq<char>) -> bool {
    c.len() > 0 && c[0] == '!' && line_ok(c)
}

/// A data token as the serializer may write one: a numeric literal, free
/// of white space and of `!`, not beginning like an option line.
pub open spec fn token_ok(t: Seq<char>) -> bool {
    &&& is_f64_literal(t)
    &&& ws_free(t)
    &&& t[0] != '#'
    &&& forall|i: int| 0 <= i < t.len() ==> #[trigger] t[i] != '!'
}

/// Every token of one sample is fit to be written.
pub open spec fn sample_tokens_ok(sv: SampleV, n: int) -> bool {
    &&& token_ok(sv.frequency)
    &&& sv.pairs.len() == n
    &&& forall|r: int| 0 <= r < n ==> (#[trigger] sv.pairs[r]).len() == n
    &&& forall|r: int, c: int|
        0 <= r < n && 0 <= c < n ==> token_ok(#[trigger] sv.pairs[r][c].0) && token_ok(
            sv.pairs[r][c].1,
        )
}

/// The row-major token list of a matrix row.
pub open spec fn row_tokens(row: Seq<(Seq<char>, Seq<char>)>) -> Seq<Seq<char>>
    decreases row.len(),
{
    if row.len() == 0 {
        Seq::empty()
    } else {
        row_tokens(row.drop_last()) + seq![row.last().0, row.last().1]
    }
}

/// The row-major token list of a whole matrix.
pub open spec fn rows_tokens(pairs: Seq<Seq<(Seq<char>, Seq<char>)>>) -> Seq<Seq<char>>
    decreases pairs.len(),
{
    if pairs.len() == 0 {
        Seq::empty()
    } else {
        rows_tokens(pairs.drop_last()) + row_tokens(pairs.last())
    }
}

pub proof fn lemma_sp_join_concat(a: Seq<Seq<char>>, b: Seq<Seq<char>>)
    ensures
        sp_join(a + b) == sp_join(a) + sp_join(b),
    decreases b.len(),
{
    if b.len() == 0 {
        assert(a + b =~= a);
        assert(sp_join(Seq::<Seq<char>>::empty()) == Seq::<char>::empty());
        assert(sp_join(a) + sp_join(b) =~= sp_join(a));
    } else {
        let b0 = b.drop_last();
        let t = b.last();
        assert(a + b =~= (a + b0).push(t));
        lemma_sp_join_push(a + b0, t);
        lemma_sp_join_concat(a, b0);
        assert(b =~= b0.push(t));
        lemma_sp_join_push(b0, t);
        assert(sp_join(a + b) =~= sp_join(a) + sp_join(b));
    }
}

/// A rendered row is the space join of its token list.
pub proof fn lemma_render_row_join(row: Seq<(Seq<char>, Seq<char>)>)
    ensures
        render_row(row) == sp_join(row_tokens(row)),
    decreases row.len(),
{
    if row.len() == 0 {
        assert(sp_join(Seq::<Seq<char>>::empty()) == Seq::<char>::empty());
        assert(render_row(row) =~= sp_join(row_tokens(row)));
    } else {
        lemma_render_row_join(row.drop_last());
        let rt = row_tokens(row.drop_last());
        lemma_sp_join_concat(rt, seq![row.last().0, row.last().1]);
        assert(seq![row.last().0, row.last().1].skip(1) =~= seq![row.last().1]);
        assert(seq![row.last().1].skip(1) =~= Seq::<Seq<char>>::empty());
        assert(sp_join(Seq::<Seq<char>>::empty()) == Seq::<char>::empty());
        assert(sp_join(seq![row.last().1]) =~= " "@ + row.last().1);
        assert(sp_join(seq![row.last().0, row.last().1]) =~= " "@ + row.last().0 + " "@
            + row.last().1);
        assert(render_row(row) =~= sp_join(row_tokens(row)));
    }
}

/// A rendered matrix is the space join of its row-major token list.
pub proof fn lemma_render_rows_join(pairs: Seq<Seq<(Seq<char>, Seq<char>)>>)
    ensures
        render_rows(pairs) == sp_join(rows_tokens(pairs)),
    decreases pairs.len(),
{
    if pairs.len() == 0 {
        assert(sp_join(Seq::<Seq<char>>::empty()) == Seq::<char>::empty());
        assert(render_rows(pairs) =~= sp_join(rows_tokens(pairs)));
    } else {
        lemma_render_rows_join(pairs.drop_last());
        lemma_render_row_join(pairs.last());
        lemma_sp_join_concat(rows_tokens(pairs.drop_last()), row_tokens(pairs.last()));
        assert(render_rows(pairs) =~= sp_join(rows_tokens(pairs)));
    }
}

/// The complete token list of one sample: the frequency, the matrix
/// row-major.
pub open spec fn sample_token_list(sv: SampleV) -> Seq<Seq<char>> {
    seq![sv.frequency] + rows_tokens(sv.pairs)
}

pub proof fn lemma_row_tokens_ok(row: Seq<(Seq<char>, Seq<char>)>)
    requires
        forall|c: int| 0 <= c < row.len() ==> token_ok(#[trigger] row[c].0) && token_ok(row[c].1),
    ensures
        row_tokens(row).len() == 2 * row.len(),
        forall|k: int| 0 <= k < row_tokens(row).len() ==> token_ok(#[trigger] row_tokens(row)[k]),
    decreases row.len(),
{
    if row.len() > 0 {
        assert(forall|c: int|
            0 <= c < row.drop_last().len() ==> token_ok(#[trigger] row.drop_last()[c].0)
                && token_ok(row.drop_last()[c].1));
        assert forall|c: int| 0 <= c < row.drop_last().len() implies token_ok(
            #[trigger] row.drop_last()[c].0,
        ) && token_ok(row.drop_last()[c].1) by {
            assert(row.drop_last()[c] == row[c]);
            assert(token_ok(row[c].0) && token_ok(row[c].1));
        }
        lemma_row_tokens_ok(row.drop_last());
        assert(row.last() == row[row.len() - 1]);
        assert(token_ok(row[row.len() - 1].0) && token_ok(row[row.len() - 1].1));
        assert forall|k: int| 0 <= k < row_tokens(row).len() implies token_ok(
            #[trigger] row_tokens(row)[k],
        ) by {
            if k < row_tokens(row.drop_last()).len() {
                assert(row_tokens(row)[k] == row_tokens(row.drop_last())[k]);
            } else {
                assert(row_tokens(row)[k] == seq![row.last().0, row.last().1][k - row_tokens(
                    row.drop_last(),
                ).len()]);
            }
        }
    }
}

pub proof fn lemma_rows_tokens_ok(pairs: Seq<Seq<(Seq<char>, Seq<char>)>>, n: int)
    requires
        forall|r: int| 0 <= r < pairs.len() ==> (#[trigger] pairs[r]).len() == n,
        forall|r: int, c: int|
            0 <= r < pairs.len() && 0 <= c < n ==> token_ok(#[trigger] pairs[r][c].0) && token_ok(
                pairs[r][c].1,
            ),
        0 <= n,
    ensures
        rows_tokens(pairs).len() == 2 * n * pairs.len(),
        forall|k: int|
            0 <= k < rows_tokens(pairs).len() ==> token_ok(#[trigger] rows_tokens(pairs)[k]),
    decreases pairs.len(),
{
    if pairs.len() > 0 {
        let p0 = pairs.drop_last();
        assert forall|r: int| 0 <= r < p0.len() implies (#[trigger] p0[r]).len() == n by {
            assert(p0[r] == pairs[r]);
        }
        assert forall|r: int, c: int|
            0 <= r < p0.len() && 0 <= c < n implies token_ok(#[trigger] p0[r][c].0) && token_ok(
            p0[r][c].1,
        ) by {
            assert(p0[r] == pairs[r]);
            assert(p0[r][c] == pairs[r][c]);
            assert(token_ok(pairs[r][c].0) && token_ok(pairs[r][c].1));
        }
        lemma_rows_tokens_ok(p0, n);
        assert(pairs.last() == pairs[pairs.len() - 1]);
        assert forall|c: int| 0 <= c < pairs.last().len() implies token_ok(
            #[trigger] pairs.last()[c].0,
        ) && token_ok(pairs.last()[c].1) by {
            assert(token_ok(pairs[pairs.len() - 1][c].0) && token_ok(pairs[pairs.len() - 1][c].1));
        }
        lemma_row_tokens_ok(pairs.last());
        assert(rows_tokens(pairs).len() == 2 * n * p0.len() + 2 * n);
        assert(2 * n * p0.len() + 2 * n == 2 * n * pairs.len()) by (nonlinear_arith)
            requires
                p0.len() == pairs.len() - 1,
        ;
        assert forall|k: int| 0 <= k < rows_tokens(pairs).len() implies token_ok(
            #[trigger] rows_tokens(pairs)[k],
        ) by {
            if k < rows_tokens(p0).len() {
                assert(rows_tokens(pairs)[k] == rows_tokens(p0)[k]);
            } else {
                assert(rows_tokens(pairs)[k] == row_tokens(pairs.last())[k - rows_tokens(
                    p0,
                ).len()]);
            }
        }
    }
}

/// A token line carries no line break: its pieces are space-free tokens
/// and single blanks.
pub proof fn lemma_token_line_ok(first: Seq<char>, ts: Seq<Seq<char>>)
    requires
        ws_free(first),
        forall|k: int| 0 <= k < ts.len() ==> ws_free(#[trigger] ts[k]),
    ensures
        line_ok(first + sp_join(ts)),
    decreases ts.len(),
{
    reveal_strlit(" ");
    if ts.len() == 0 {
        assert forall|i: int| 0 <= i < (first + sp_join(ts)).len() implies (#[trigger] (first
            + sp_join(ts))[i]) != '\n' && (first + sp_join(ts))[i] != '\r' by {
            assert((first + sp_join(ts))[i] == first[i]);
            assert(!is_space(first[i]));
        }
    } else {
        assert(forall|k: int| 0 <= k < ts.skip(1).len() ==> ws_free(#[trigger] ts.skip(1)[k]));
        lemma_token_line_ok(ts[0], ts.skip(1));
        let l = first + sp_join(ts);
        let inner = ts[0] + sp_join(ts.skip(1));
        assert(l =~= first + seq![' '] + inner);
        assert forall|i: int| 0 <= i < l.len() implies (#[trigger] l[i]) != '\n' && l[i] != '\r' by {
            if i < first.len() {
                assert(l[i] == first[i]);
                assert(!is_space(first[i]));
            } else if i == first.len() {
                assert(l[i] == ' ');
            } else {
                assert(l[i] == inner[i - first.len() - 1]);
            }
        }
    }
}

/// Running lines in two stretches composes.
pub proof fn lemma_run_lines_concat(st: ParseStateV, n: int, a: Seq<Seq<char>>, b: Seq<Seq<char>>)
    ensures
        run_lines(st, n, a + b) == match run_lines(st, n, a) {
            Ok(st2) => run_lines(st2, n, b),
            Err(e) => Err(e),
        },
    decreases a.len(),
{
    if a.len() == 0 {
        assert(a + b =~= b);
    } else {
        assert((a + b)[0] == a[0]);
        assert((a + b).skip(1) =~= a.skip(1) + b);
        match step_line(st, n, a[0]) {
            Ok(st2) => {
                lemma_run_lines_concat(st2, n, a.skip(1), b);
            },
            Err(_) => {},
        }
    }
}

/// Comment lines before the option line accumulate, one each, in order.
pub proof fn lemma_run_comments(st: ParseStateV, n: int, cs: Seq<Seq<char>>)
    requires
        forall|k: int| 0 <= k < cs.len() ==> comment_ok(#[trigger] cs[k]),
        !st.option_seen,
    ensures
        run_lines(st, n, cs) == Ok::<ParseStateV, TouchstoneErrorV>(
            ParseStateV { comments: st.comments + cs, ..st },
        ),
    decreases cs.len(),
{
    if cs.len() == 0 {
        assert(st.comments + cs =~= st.comments);
        assert(ParseStateV { comments: st.comments + cs, ..st } == st);
    } else {
        let st2 = ParseStateV { comments: st.comments.push(cs[0]), ..st };
        assert(step_line(st, n, cs[0]) == Ok::<ParseStateV, TouchstoneErrorV>(st2));
        assert(forall|k: int| 0 <= k < cs.skip(1).len() ==> comment_ok(#[trigger] cs.skip(1)[k]));
        lemma_run_comments(st2, n, cs.skip(1));
        assert(st.comments.push(cs[0]) + cs.skip(1) =~= st.comments + cs);
    }
}

/// Comment lines after the option line accumulate likewise.
pub proof fn lemma_run_comments_after(st: ParseStateV, n: int, cs: Seq<Seq<char>>)
    requires
        forall|k: int| 0 <= k < cs.len() ==> comment_ok(#[trigger] cs[k]),
        st.option_seen,
    ensures
        run_lines(st, n, cs) == Ok::<ParseStateV, TouchstoneErrorV>(
            ParseStateV { comments_after: st.comments_after + cs, ..st },
        ),
    decreases cs.len(),
{
    if cs.len() == 0 {
        assert(st.comments_after + cs =~= st.comments_after);
        assert(ParseStateV { comments_after: st.comments_after + cs, ..st } == st);
    } else {
        let st2 = ParseStateV { comments_after: st.comments_after.push(cs[0]), ..st };
        assert(step_line(st, n, cs[0]) == Ok::<ParseStateV, TouchstoneErrorV>(st2));
        assert(forall|k: int| 0 <= k < cs.skip(1).len() ==> comment_ok(#[trigger] cs.skip(1)[k]));
        lemma_run_comments_after(st2, n, cs.skip(1));
        assert(st.comments_after.push(cs[0]) + cs.skip(1) =~= st.comments_after + cs);
    }
}

/// Two sequences differing in their first character differ.
proof fn lemma_first_char_differs(a: Seq<char>, b: Seq<char>)
    requires
        a.len() > 0,
        b.len() > 0,
        a[0] != b[0],
    ensures
        a != b,
{
}

/// Applying `#` changes nothing.
pub proof fn lemma_apply_hash(o: OptionsV)
    ensures
        apply_option_token(o, "#"@) == o,
{
    reveal_strlit("#");
    assert(lower("#"@) =~= "#"@);
}

/// Applying a canonical frequency-unit word sets exactly that unit.
#[verifier::rlimit(100)]
pub proof fn lemma_apply_unit(o: OptionsV, fu: Seq<char>)
    requires
        fu == "Hz"@ || fu == "kHz"@ || fu == "MHz"@ || fu == "GHz"@,
    ensures
        apply_option_token(o, fu) == (OptionsV { frequency_unit: fu, ..o }),
{
    reveal_strlit("#");
    reveal_strlit("Hz");
    reveal_strlit("kHz");
    reveal_strlit("MHz");
    reveal_strlit("GHz");
    reveal_strlit("hz");
    reveal_strlit("khz");
    reveal_strlit("mhz");
    reveal_strlit("ghz");
    if fu == "Hz"@ {
        assert(lower("Hz"@) =~= "hz"@);
        assert(lower(fu) == "hz"@);
        lemma_first_char_differs("hz"@, "#"@);
        assert(lower(fu) != "#"@);
        assert(apply_option_token(o, fu) == (OptionsV { frequency_unit: "Hz"@, ..o }));
    } else if fu == "kHz"@ {
        assert(lower("kHz"@) =~= "khz"@);
        assert(lower(fu) == "khz"@);
        lemma_first_char_differs("khz"@, "#"@);
        assert(lower(fu) != "#"@ && lower(fu) != "hz"@);
        assert(apply_option_token(o, fu) == (OptionsV { frequency_unit: "kHz"@, ..o }));
    } else if fu == "MHz"@ {
        assert(lower("MHz"@) =~= "mhz"@);
        assert(lower(fu) == "mhz"@);
        lemma_first_char_differs("mhz"@, "#"@);
        lemma_first_char_differs("mhz"@, "khz"@);
        assert(lower(fu) != "#"@ && lower(fu) != "hz"@ && lower(fu) != "khz"@);
        assert(apply_option_token(o, fu) == (OptionsV { frequency_unit: "MHz"@, ..o }));
    } else {
        assert(lower("GHz"@) =~= "ghz"@);
        assert(lower(fu) == "ghz"@);
        lemma_first_char_differs("ghz"@, "#"@);
        lemma_first_char_differs("ghz"@, "khz"@);
        lemma_first_char_differs("ghz"@, "mhz"@);
        assert(lower(fu) != "#"@ && lower(fu) != "hz"@ && lower(fu) != "khz"@ && lower(fu)
            != "mhz"@);
        assert(apply_option_token(o, fu) == (OptionsV { frequency_unit: "GHz"@, ..o }));
    }
}

/// Applying a canonical parameter word sets exactly that parameter.
#[verifier::rlimit(100)]
pub proof fn lemma_apply_parameter(o: OptionsV, pa: Seq<char>)
    requires
        pa == "S"@ || pa == "Y"@ || pa == "Z"@ || pa == "H"@ || pa == "G"@,
    ensures
        apply_option_token(o, pa) == (OptionsV { parameter: pa, ..o }),
{
    reveal_strlit("#");
    reveal_strlit("hz");
    reveal_strlit("khz");
    reveal_strlit("mhz");
    reveal_strlit("ghz");
    reveal_strlit("S");
    reveal_strlit("Y");
    reveal_strlit("Z");
    reveal_strlit("H");
    reveal_strlit("G");
    reveal_strlit("s");
    reveal_strlit("y");
    reveal_strlit("z");
    reveal_strlit("h");
    reveal_strlit("g");
    if pa == "S"@ {
        assert(lower("S"@) =~= "s"@);
        assert(lower(pa) == "s"@);
        lemma_first_char_differs("s"@, "#"@);
        assert(lower(pa) != "#"@ && lower(pa) != "hz"@ && lower(pa) != "khz"@ && lower(pa)
            != "mhz"@ && lower(pa) != "ghz"@);
        assert(apply_option_token(o, pa) == (OptionsV { parameter: "S"@, ..o }));
    } else if pa == "Y"@ {
        assert(lower("Y"@) =~= "y"@);
        assert(lower(pa) == "y"@);
        lemma_first_char_differs("y"@, "#"@);
        lemma_first_char_differs("y"@, "s"@);
        assert(lower(pa) != "#"@ && lower(pa) != "hz"@ && lower(pa) != "khz"@ && lower(pa)
            != "mhz"@ && lower(pa) != "ghz"@);
        assert(apply_option_token(o, pa) == (OptionsV { parameter: "Y"@, ..o }));
    } else if pa == "Z"@ {
        assert(lower("Z"@) =~= "z"@);
        assert(lower(pa) == "z"@);
        lemma_first_char_differs("z"@, "#"@);
        lemma_first_char_differs("z"@, "s"@);
        lemma_first_char_differs("z"@, "y"@);
        assert(lower(pa) != "#"@ && lower(pa) != "hz"@ && lower(pa) != "khz"@ && lower(pa)
            != "mhz"@ && lower(pa) != "ghz"@);
        assert(apply_option_token(o, pa) == (OptionsV { parameter: "Z"@, ..o }));
    } else if pa == "H"@ {
        assert(lower("H"@) =~= "h"@);
        assert(lower(pa) == "h"@);
        lemma_first_char_differs("h"@, "#"@);
        lemma_first_char_differs("h"@, "s"@);
        lemma_first_char_differs("h"@, "y"@);
        lemma_first_char_differs("h"@, "z"@);
        assert(lower(pa) != "#"@ && lower(pa) != "hz"@ && lower(pa) != "khz"@ && lower(pa)
            != "mhz"@ && lower(pa) != "ghz"@);
        assert(apply_option_token(o, pa) == (OptionsV { parameter: "H"@, ..o }));
    } else {
        assert(lower("G"@) =~= "g"@);
        assert(lower(pa) == "g"@);
        lemma_first_char_differs("g"@, "#"@);
        lemma_first_char_differs("g"@, "s"@);
        lemma_first_char_differs("g"@, "y"@);
        lemma_first_char_differs("g"@, "z"@);
        lemma_first_char_differs("g"@, "h"@);
        assert(lower(pa) != "#"@ && lower(pa) != "hz"@ && lower(pa) != "khz"@ && lower(pa)
            != "mhz"@ && lower(pa) != "ghz"@);
        assert(apply_option_token(o, pa) == (OptionsV { parameter: "G"@, ..o }));
    }
}

/// Applying a canonical format word sets exactly that format.
#[verifier::rlimit(100)]
pub proof fn lemma_apply_format(o: OptionsV, fo: Seq<char>)
    requires
        fo == "DB"@ || fo == "MA"@ || fo == "RI"@,
    ensures
        apply_option_token(o, fo) == (OptionsV { format: fo, ..o }),
{
    reveal_strlit("#");
    reveal_strlit("hz");
    reveal_strlit("khz");
    reveal_strlit("mhz");
    reveal_strlit("ghz");
    reveal_strlit("s");
    reveal_strlit("y");
    reveal_strlit("z");
    reveal_strlit("h");
    reveal_strlit("g");
    reveal_strlit("DB");
    reveal_strlit("MA");
    reveal_strlit("RI");
    reveal_strlit("db");
    reveal_strlit("ma");
    reveal_strlit("ri");
    if fo == "DB"@ {
        assert(lower("DB"@) =~= "db"@);
        assert(lower(fo) == "db"@);
        lemma_first_char_differs("db"@, "hz"@);
        assert(lower(fo) != "#"@ && lower(fo) != "hz"@ && lower(fo) != "khz"@ && lower(fo)
            != "mhz"@ && lower(fo) != "ghz"@ && lower(fo) != "s"@ && lower(fo) != "y"@ && lower(fo)
            != "z"@ && lower(fo) != "h"@ && lower(fo) != "g"@);
        assert(apply_option_token(o, fo) == (OptionsV { format: "DB"@, ..o }));
    } else if fo == "MA"@ {
        assert(lower("MA"@) =~= "ma"@);
        assert(lower(fo) == "ma"@);
        lemma_first_char_differs("ma"@, "hz"@);
        lemma_first_char_differs("ma"@, "db"@);
        assert(lower(fo) != "#"@ && lower(fo) != "hz"@ && lower(fo) != "khz"@ && lower(fo)
            != "mhz"@ && lower(fo) != "ghz"@ && lower(fo) != "s"@ && lower(fo) != "y"@ && lower(fo)
            != "z"@ && lower(fo) != "h"@ && lower(fo) != "g"@);
        assert(apply_option_token(o, fo) == (OptionsV { format: "MA"@, ..o }));
    } else {
        assert(lower("RI"@) =~= "ri"@);
        assert(lower(fo) == "ri"@);
        lemma_first_char_differs("ri"@, "hz"@);
        lemma_first_char_differs("ri"@, "db"@);
        lemma_first_char_differs("ri"@, "ma"@);
        assert(lower(fo) != "#"@ && lower(fo) != "hz"@ && lower(fo) != "khz"@ && lower(fo)
            != "mhz"@ && lower(fo) != "ghz"@ && lower(fo) != "s"@ && lower(fo) != "y"@ && lower(fo)
            != "z"@ && lower(fo) != "h"@ && lower(fo) != "g"@);
        assert(apply_option_token(o, fo) == (OptionsV { format: "RI"@, ..o }));
    }
}

/// Applying `R` sets the resistance marker.
#[verifier::rlimit(100)]
pub proof fn lemma_apply_marker(o: OptionsV)
    ensures
        apply_option_token(o, "R"@) == (OptionsV { resistance_string: "R"@, ..o }),
{
    reveal_strlit("#");
    reveal_strlit("hz");
    reveal_strlit("khz");
    reveal_strlit("mhz");
    reveal_strlit("ghz");
    reveal_strlit("s");
    reveal_strlit("y");
    reveal_strlit("z");
    reveal_strlit("h");
    reveal_strlit("g");
    reveal_strlit("db");
    reveal_strlit("ma");
    reveal_strlit("ri");
    reveal_strlit("R");
    reveal_strlit("r");
    assert(lower("R"@) =~= "r"@);
    lemma_first_char_differs("r"@, "#"@);
    lemma_first_char_differs("r"@, "s"@);
    lemma_first_char_differs("r"@, "y"@);
    lemma_first_char_differs("r"@, "z"@);
    lemma_first_char_differs("r"@, "h"@);
    lemma_first_char_differs("r"@, "g"@);
    assert(lower("R"@) != "#"@ && lower("R"@) != "hz"@ && lower("R"@) != "khz"@ && lower("R"@)
        != "mhz"@ && lower("R"@) != "ghz"@ && lower("R"@) != "s"@ && lower("R"@) != "y"@ && lower(
        "R"@,
    ) != "z"@ && lower("R"@) != "h"@ && lower("R"@) != "g"@ && lower("R"@) != "db"@ && lower("R"@)
        != "ma"@ && lower("R"@) != "ri"@);
    assert(apply_option_token(o, "R"@) == (OptionsV { resistance_string: "R"@, ..o }));
}

/// Applying a resistance-class token stores its folded form as the
/// reference resistance.
pub proof fn lemma_apply_resistance(o: OptionsV, z0: Seq<char>)
    requires
        option_token_class(z0) == 5,
    ensures
        apply_option_token(o, z0) == (OptionsV { reference_resistance: lower(z0), ..o }),
{
}

/// The canonical option-line fields a saved network carries.
pub open spec fn option_fields_ok(nv: NetworkV) -> bool {
    &&& (nv.frequency_unit == "Hz"@ || nv.frequency_unit == "kHz"@ || nv.frequency_unit == "MHz"@
        || nv.frequency_unit == "GHz"@)
    &&& (nv.parameter == "S"@ || nv.parameter == "Y"@ || nv.parameter == "Z"@ || nv.parameter
        == "H"@ || nv.parameter == "G"@)
    &&& (nv.format == "DB"@ || nv.format == "MA"@ || nv.format == "RI"@)
    &&& nv.resistance_string == "R"@
    &&& token_ok(nv.z0)
    &&& lower(nv.z0) == nv.z0
    &&& option_token_class(nv.z0) == 5
}

/// The option line a network renders.
pub open spec fn option_line_of(nv: NetworkV) -> Seq<char> {
    "# "@ + nv.frequency_unit + " "@ + nv.parameter + " "@ + nv.format + " "@
        + nv.resistance_string + " "@ + nv.z0
}

/// Reparsing the rendered option line restores exactly the five fields it
/// spells, whatever record it is applied to.
pub proof fn lemma_option_line_round_trip(o: OptionsV, nv: NetworkV)
    requires
        option_fields_ok(nv),
    ensures
        spec_parse_option_line(o, option_line_of(nv)) == (OptionsV {
            frequency_unit: nv.frequency_unit,
            parameter: nv.parameter,
            format: nv.format,
            resistance_string: nv.resistance_string,
            reference_resistance: nv.z0,
        }),
        option_line_of(nv).len() > 0 && option_line_of(nv)[0] == '#',
        line_ok(option_line_of(nv)),
{
    reveal_strlit(" ");
    reveal_strlit("# ");
    reveal_strlit("#");
    reveal_strlit("Hz");
    reveal_strlit("kHz");
    reveal_strlit("MHz");
    reveal_strlit("GHz");
    reveal_strlit("S");
    reveal_strlit("Y");
    reveal_strlit("Z");
    reveal_strlit("H");
    reveal_strlit("G");
    reveal_strlit("DB");
    reveal_strlit("MA");
    reveal_strlit("RI");
    reveal_strlit("R");
    let fu = nv.frequency_unit;
    let pa = nv.parameter;
    let fo = nv.format;
    let z0 = nv.z0;
    assert(ws_free("#"@));
    assert(ws_free("R"@));
    assert(ws_free(fu));
    assert(ws_free(pa));
    assert(ws_free(fo));
    let t5 = seq![fu, pa, fo, "R"@, z0];
    let line = option_line_of(nv);
    assert(t5.skip(1) =~= seq![pa, fo, "R"@, z0]);
    assert(seq![pa, fo, "R"@, z0].skip(1) =~= seq![fo, "R"@, z0]);
    assert(seq![fo, "R"@, z0].skip(1) =~= seq!["R"@, z0]);
    assert(seq!["R"@, z0].skip(1) =~= seq![z0]);
    assert(seq![z0].skip(1) =~= Seq::<Seq<char>>::empty());
    assert(sp_join(Seq::<Seq<char>>::empty()) == Seq::<char>::empty());
    assert(sp_join(seq![z0]) =~= " "@ + z0);
    assert(sp_join(seq!["R"@, z0]) =~= " "@ + "R"@ + " "@ + z0);
    assert(sp_join(seq![fo, "R"@, z0]) =~= " "@ + fo + " "@ + "R"@ + " "@ + z0);
    assert(sp_join(seq![pa, fo, "R"@, z0]) =~= " "@ + pa + " "@ + fo + " "@ + "R"@ + " "@ + z0);
    assert(sp_join(t5) =~= " "@ + fu + " "@ + pa + " "@ + fo + " "@ + "R"@ + " "@ + z0);
    assert(line =~= "#"@ + sp_join(t5));
    assert forall|k: int| 0 <= k < t5.len() implies ws_free(#[trigger] t5[k]) by {
        if k == 0 {
            assert(t5[k] == fu);
        } else if k == 1 {
            assert(t5[k] == pa);
        } else if k == 2 {
            assert(t5[k] == fo);
        } else if k == 3 {
            assert(t5[k] == "R"@);
        } else {
            assert(t5[k] == z0);
        }
    }
    lemma_split_ws_line("#"@, t5);
    assert(split_ws(line) == seq!["#"@] + t5);
    let ts = seq!["#"@, fu, pa, fo, "R"@, z0];
    assert(seq!["#"@] + t5 =~= ts);
    // Apply the six tokens in order.
    let o1 = apply_option_token(o, "#"@);
    lemma_apply_hash(o);
    let o2 = apply_option_token(o1, fu);
    lemma_apply_unit(o1, fu);
    let o3 = apply_option_token(o2, pa);
    lemma_apply_parameter(o2, pa);
    let o4 = apply_option_token(o3, fo);
    lemma_apply_format(o3, fo);
    let o5 = apply_option_token(o4, "R"@);
    lemma_apply_marker(o4);
    let o6 = apply_option_token(o5, z0);
    lemma_apply_resistance(o5, z0);
    assert(o6 == OptionsV {
        frequency_unit: fu,
        parameter: pa,
        format: fo,
        resistance_string: "R"@,
        reference_resistance: z0,
    });
    // Fold the token list.
    assert(ts.skip(1) =~= t5);
    assert(apply_option_tokens(o, ts) == apply_option_tokens(o1, t5));
    assert(apply_option_tokens(o1, t5) == apply_option_tokens(o2, t5.skip(1)));
    assert(apply_option_tokens(o2, t5.skip(1)) == apply_option_tokens(o3, seq![fo, "R"@, z0]));
    assert(apply_option_tokens(o3, seq![fo, "R"@, z0]) == apply_option_tokens(o4, seq!["R"@, z0]));
    assert(apply_option_tokens(o4, seq!["R"@, z0]) == apply_option_tokens(o5, seq![z0]));
    assert(apply_option_tokens(o5, seq![z0]) == apply_option_tokens(
        o6,
        Seq::<Seq<char>>::empty(),
    ));
    assert(apply_option_tokens(o6, Seq::<Seq<char>>::empty()) == o6);
    // The rendered line starts with `#` and is break-free.
    assert(line[0] == '#');
    lemma_token_line_ok("#"@, t5);
    assert(line_ok(line));
}

/// The record line one sample renders to (one line for up to two ports).
pub open spec fn sample_line(sv: SampleV) -> Seq<char> {
    sv.frequency + render_rows(sv.pairs)
}

/// One rendered record line steps the parse by exactly its sample.
pub proof fn lemma_run_sample_line(st: ParseStateV, n: int, sv: SampleV)
    requires
        1 <= n <= 2,
        sample_tokens_ok(sv, n),
        st.pending.len() == 0,
    ensures
        step_line(st, n, sample_line(sv)) == Ok::<ParseStateV, TouchstoneErrorV>(
            ParseStateV { pending: Seq::empty(), samples: st.samples.push(sv), ..st },
        ),
        line_ok(sample_line(sv)),
{
    let p = sv.pairs;
    let rt = rows_tokens(p);
    let toks = sample_token_list(sv);
    assert(forall|r: int| 0 <= r < p.len() ==> (#[trigger] p[r]).len() == n);
    lemma_rows_tokens_ok(p, n);
    lemma_render_rows_join(p);
    let line = sample_line(sv);
    assert forall|k: int| 0 <= k < rt.len() implies ws_free(#[trigger] rt[k]) by {
        assert(token_ok(rt[k]));
    }
    lemma_split_ws_line(sv.frequency, rt);
    assert(split_ws(line) == seq![sv.frequency] + rt);
    assert(seq![sv.frequency] + rt =~= toks);
    // The line holds no `!`, so nothing is stripped.
    assert(forall|k: int, i: int|
        0 <= k < rt.len() && 0 <= i < rt[k].len() ==> #[trigger] rt[k][i] != '!');
    lemma_sp_join_no_bang(rt);
    assert forall|i: int| 0 <= i < line.len() implies #[trigger] line[i] != '!' by {
        if i < sv.frequency.len() {
            assert(line[i] == sv.frequency[i]);
        } else {
            assert(line[i] == sp_join(rt)[i - sv.frequency.len()]);
        }
    }
    lemma_first_bang_at(line, line.len() as int);
    assert(strip_inline_comment(line) =~= line);
    assert(data_line_tokens(line) == toks);
    // Classification: the line starts with the frequency token.
    assert(line[0] == sv.frequency[0]);
    assert(line[0] != '#' && line[0] != '!');
    // The token count is exactly one record.
    assert(rt.len() == 2 * n * n);
    assert(toks.len() == needed_tokens(n));
    assert(st.pending + toks =~= toks);
    // Every token is numeric.
    assert forall|k: int| 0 <= k < toks.len() implies is_f64_literal(#[trigger] toks[k]) by {
        if k == 0 {
            assert(toks[k] == sv.frequency);
        } else {
            assert(toks[k] == rt[k - 1]);
            assert(token_ok(rt[k - 1]));
        }
    }
    assert(all_f64_literals(toks));
    // The decomposed sample is the one rendered.
    if n == 1 {
        assert(p.drop_last() =~= Seq::<Seq<(Seq<char>, Seq<char>)>>::empty());
        assert(p.last() == p[0]);
        assert(rows_tokens(Seq::<Seq<(Seq<char>, Seq<char>)>>::empty()) == Seq::<
            Seq<char>,
        >::empty());
        assert(p[0].drop_last() =~= Seq::<(Seq<char>, Seq<char>)>::empty());
        assert(p[0].last() == p[0][0]);
        assert(row_tokens(Seq::<(Seq<char>, Seq<char>)>::empty()) == Seq::<Seq<char>>::empty());
        assert(row_tokens(p[0]) =~= seq![p[0][0].0, p[0][0].1]);
        assert(rt =~= seq![p[0][0].0, p[0][0].1]);
        assert(toks =~= seq![sv.frequency, p[0][0].0, p[0][0].1]);
        assert(sample_pairs(toks, 1)[0] =~= p[0]) by {
            assert(sample_pairs(toks, 1)[0][0] == (toks[1], toks[2]));
            assert((p[0][0].0, p[0][0].1) == p[0][0]);
        }
        assert(sample_pairs(toks, 1) =~= p);
    } else {
        assert(p.drop_last() =~= seq![p[0]]);
        assert(p.last() == p[1]);
        assert(seq![p[0]].drop_last() =~= Seq::<Seq<(Seq<char>, Seq<char>)>>::empty());
        assert(seq![p[0]].last() == p[0]);
        assert(rows_tokens(Seq::<Seq<(Seq<char>, Seq<char>)>>::empty()) == Seq::<
            Seq<char>,
        >::empty());
        lemma_row_tokens_two(p[0]);
        lemma_row_tokens_two(p[1]);
        assert(rows_tokens(seq![p[0]]) =~= seq![p[0][0].0, p[0][0].1, p[0][1].0, p[0][1].1]);
        assert(rt =~= seq![
            p[0][0].0,
            p[0][0].1,
            p[0][1].0,
            p[0][1].1,
            p[1][0].0,
            p[1][0].1,
            p[1][1].0,
            p[1][1].1,
        ]);
        assert(toks =~= seq![
            sv.frequency,
            p[0][0].0,
            p[0][0].1,
            p[0][1].0,
            p[0][1].1,
            p[1][0].0,
            p[1][0].1,
            p[1][1].0,
            p[1][1].1,
        ]);
        assert(sample_pairs(toks, 2)[0] =~= p[0]) by {
            assert(sample_pairs(toks, 2)[0][0] == (toks[1], toks[2]));
            assert(sample_pairs(toks, 2)[0][1] == (toks[3], toks[4]));
            assert((p[0][0].0, p[0][0].1) == p[0][0]);
            assert((p[0][1].0, p[0][1].1) == p[0][1]);
        }
        assert(sample_pairs(toks, 2)[1] =~= p[1]) by {
            assert(sample_pairs(toks, 2)[1][0] == (toks[5], toks[6]));
            assert(sample_pairs(toks, 2)[1][1] == (toks[7], toks[8]));
            assert((p[1][0].0, p[1][0].1) == p[1][0]);
            assert((p[1][1].0, p[1][1].1) == p[1][1]);
        }
        assert(sample_pairs(toks, 2) =~= p);
    }
    assert(spec_parse_data_tokens(toks, n) == Ok::<SampleV, TouchstoneErrorV>(sv));
    lemma_token_line_ok(sv.frequency, rt);
}

/// The row-major token list of one two-entry row, spelled out.
proof fn lemma_row_tokens_two(row: Seq<(Seq<char>, Seq<char>)>)
    requires
        row.len() == 2,
    ensures
        row_tokens(row) =~= seq![row[0].0, row[0].1, row[1].0, row[1].1],
{
    assert(row.drop_last() =~= seq![row[0]]);
    assert(row.last() == row[1]);
    assert(seq![row[0]].drop_last() =~= Seq::<(Seq<char>, Seq<char>)>::empty());
    assert(seq![row[0]].last() == row[0]);
    assert(row_tokens(Seq::<(Seq<char>, Seq<char>)>::empty()) == Seq::<Seq<char>>::empty());
    assert(row_tokens(seq![row[0]]) =~= seq![row[0].0, row[0].1]);
}

/// The record lines of a sample sequence.
pub open spec fn sample_lines(svs: Seq<SampleV>) -> Seq<Seq<char>> {
    svs.map_values(|sv: SampleV| sample_line(sv))
}

/// Rendered record lines accumulate their samples, one each, in order.
pub proof fn lemma_run_samples(st: ParseStateV, n: int, svs: Seq<SampleV>)
    requires
        1 <= n <= 2,
        st.pending.len() == 0,
        forall|k: int| 0 <= k < svs.len() ==> sample_tokens_ok(#[trigger] svs[k], n),
    ensures
        run_lines(st, n, sample_lines(svs)) == Ok::<ParseStateV, TouchstoneErrorV>(
            ParseStateV { pending: Seq::empty(), samples: st.samples + svs, ..st },
        ),
        forall|k: int| 0 <= k < svs.len() ==> line_ok(#[trigger] sample_lines(svs)[k]),
    decreases svs.len(),
{
    if svs.len() == 0 {
        assert(st.samples + svs =~= st.samples);
        assert(st.pending =~= Seq::<Seq<char>>::empty());
        assert(ParseStateV { pending: Seq::empty(), samples: st.samples + svs, ..st } == st);
    } else {
        lemma_run_sample_line(st, n, svs[0]);
        let st2 = ParseStateV { pending: Seq::empty(), samples: st.samples.push(svs[0]), ..st };
        assert(sample_lines(svs)[0] == sample_line(svs[0]));
        assert(sample_lines(svs).skip(1) =~= sample_lines(svs.skip(1)));
        assert(forall|k: int|
            0 <= k < svs.skip(1).len() ==> sample_tokens_ok(#[trigger] svs.skip(1)[k], n));
        lemma_run_samples(st2, n, svs.skip(1));
        assert(st.samples.push(svs[0]) + svs.skip(1) =~= st.samples + svs);
        assert forall|k: int| 0 <= k < svs.len() implies line_ok(
            #[trigger] sample_lines(svs)[k],
        ) by {
            if k > 0 {
                assert(sample_lines(svs)[k] == sample_lines(svs.skip(1))[k - 1]);
            }
        }
    }
}

/// `render_lines` and `text_of_lines` spell the same text.
pub proof fn lemma_render_lines_text(ls: Seq<Seq<char>>)
    ensures
        render_lines(ls) == text_of_lines(ls),
    decreases ls.len(),
{
    if ls.len() == 0 {
        assert(render_lines(ls) =~= text_of_lines(ls));
    } else {
        lemma_render_lines_text(ls.drop_last());
        lemma_text_of_lines_push(ls.drop_last(), ls.last());
        assert(ls.drop_last().push(ls.last()) =~= ls);
        assert(render_lines(ls) =~= text_of_lines(ls));
    }
}

/// For up to two ports, the rendered records are the record lines as text.
pub proof fn lemma_render_samples_text(svs: Seq<SampleV>, n: int)
    requires
        n <= 2,
    ensures
        render_samples(svs, n) == text_of_lines(sample_lines(svs)),
    decreases svs.len(),
{
    if svs.len() == 0 {
        assert(render_samples(svs, n) =~= text_of_lines(sample_lines(svs)));
    } else {
        lemma_render_samples_text(svs.drop_last(), n);
        assert(sample_lines(svs.drop_last()) =~= sample_lines(svs).drop_last());
        lemma_text_of_lines_push(sample_lines(svs).drop_last(), sample_lines(svs).last());
        assert(sample_lines(svs).drop_last().push(sample_lines(svs).last()) =~= sample_lines(svs));
        assert(sample_lines(svs).last() == sample_line(svs.last()));
        assert(render_sample(svs.last(), n) =~= sample_line(svs.last()).push('\n'));
        assert(render_samples(svs, n) =~= text_of_lines(sample_lines(svs)));
    }
}

/// What a network must satisfy for its saved text to parse back to it:
/// well-formed with one or two ports, a matching extension on its name,
/// canonical option fields, comment lines that look like comments, and
/// numeric tokens fit to be written.
pub open spec fn well_saved(nv: NetworkV) -> bool {
    &&& network_wf(nv)
    &&& 1 <= nv.rank <= 2
    &&& spec_valid_extension(extension_of(nv.name))
    &&& spec_extension_ports(extension_of(nv.name)) == nv.rank
    &&& option_fields_ok(nv)
    &&& forall|k: int| 0 <= k < nv.comments.len() ==> comment_ok(#[trigger] nv.comments[k])
    &&& forall|k: int|
        0 <= k < nv.comments_after_option_line.len() ==> comment_ok(
            #[trigger] nv.comments_after_option_line[k],
        )
    &&& forall|i: int| 0 <= i < nv.s.len() ==> sample_tokens_ok(#[trigger] nv.s[i], nv.rank)
}

/// Saving a network and parsing the text back returns the identical
/// network: the same name, rank, option fields, comments, frequency
/// tokens, and value tokens.
pub proof fn lemma_save_load_round_trip(nv: NetworkV)
    requires
        well_saved(nv),
    ensures
        spec_parse_network(nv.name, render_network(nv)) == Ok::<NetworkV, TouchstoneErrorV>(nv),
{
    let n = nv.rank;
    let opt = option_line_of(nv);
    lemma_option_line_round_trip(default_options(), nv);
    let slines = sample_lines(nv.s);
    let all = nv.comments + seq![opt] + nv.comments_after_option_line + slines;

    // The rendered text is these lines, in order.
    lemma_render_lines_text(nv.comments);
    lemma_render_lines_text(nv.comments_after_option_line);
    lemma_render_samples_text(nv.s, n);
    assert(text_of_lines(seq![opt]) =~= opt.push('\n')) by {
        assert(seq![opt].skip(1) =~= Seq::<Seq<char>>::empty());
        assert(text_of_lines(Seq::<Seq<char>>::empty()) == Seq::<char>::empty());
    }
    lemma_text_of_lines_concat(nv.comments, seq![opt]);
    lemma_text_of_lines_concat(nv.comments + seq![opt], nv.comments_after_option_line);
    lemma_text_of_lines_concat(
        nv.comments + seq![opt] + nv.comments_after_option_line,
        slines,
    );
    assert(render_network(nv) =~= text_of_lines(all));

    // Splitting the text returns the lines.
    let st0 = initial_state();
    lemma_run_samples(
        ParseStateV {
            options: spec_parse_option_line(default_options(), opt),
            option_seen: true,
            comments: nv.comments,
            comments_after: nv.comments_after_option_line,
            pending: Seq::empty(),
            samples: Seq::empty(),
        },
        n,
        nv.s,
    );
    assert forall|k: int| 0 <= k < all.len() implies line_ok(#[trigger] all[k]) by {
        if k < nv.comments.len() {
            assert(all[k] == nv.comments[k]);
        } else if k == nv.comments.len() {
            assert(all[k] == opt);
        } else if k < nv.comments.len() + 1 + nv.comments_after_option_line.len() {
            assert(all[k] == nv.comments_after_option_line[k - nv.comments.len() - 1]);
        } else {
            assert(all[k] == slines[k - nv.comments.len() - 1
                - nv.comments_after_option_line.len()]);
        }
    }
    lemma_split_lines_text(all);
    assert(split_lines(render_network(nv)) == all);

    // Run the lines through the state machine, segment by segment.
    lemma_run_comments(st0, n, nv.comments);
    let st1 = ParseStateV { comments: nv.comments, ..st0 };
    assert(st0.comments + nv.comments =~= nv.comments);
    assert(run_lines(st0, n, nv.comments) == Ok::<ParseStateV, TouchstoneErrorV>(st1));

    let st2 = ParseStateV {
        options: spec_parse_option_line(default_options(), opt),
        option_seen: true,
        ..st1
    };
    assert(step_line(st1, n, opt) == Ok::<ParseStateV, TouchstoneErrorV>(st2));
    assert(run_lines(st1, n, seq![opt]) == Ok::<ParseStateV, TouchstoneErrorV>(st2)) by {
        assert(seq![opt][0] == opt);
        assert(seq![opt].skip(1) =~= Seq::<Seq<char>>::empty());
        assert(run_lines(st2, n, Seq::<Seq<char>>::empty()) == Ok::<
            ParseStateV,
            TouchstoneErrorV,
        >(st2));
    }

    lemma_run_comments_after(st2, n, nv.comments_after_option_line);
    let st3 = ParseStateV { comments_after: nv.comments_after_option_line, ..st2 };
    assert(st2.comments_after + nv.comments_after_option_line
        =~= nv.comments_after_option_line);
    assert(run_lines(st2, n, nv.comments_after_option_line) == Ok::<
        ParseStateV,
        TouchstoneErrorV,
    >(st3));

    lemma_run_samples(st3, n, nv.s);
    let st4 = ParseStateV { pending: Seq::empty(), samples: nv.s, ..st3 };
    assert(st3.samples + nv.s =~= nv.s);
    assert(run_lines(st3, n, slines) == Ok::<ParseStateV, TouchstoneErrorV>(st4));

    lemma_run_lines_concat(st0, n, nv.comments, seq![opt]);
    lemma_run_lines_concat(st0, n, nv.comments + seq![opt], nv.comments_after_option_line);
    lemma_run_lines_concat(
        st0,
        n,
        nv.comments + seq![opt] + nv.comments_after_option_line,
        slines,
    );
    assert(run_lines(st0, n, all) == Ok::<ParseStateV, TouchstoneErrorV>(st4));

    // The guard of the parse holds and the final state spells the network.
    assert(rank_countable(n));
    assert(network_of_state(nv.name, n, st4) == nv) by {
        assert(is_f64_literal(st4.options.reference_resistance));
        assert(frequencies_of(nv.s) =~= nv.f) by {
            assert forall|i: int| 0 <= i < nv.s.len() implies frequencies_of(nv.s)[i] == nv.f[i]
            by {
                assert(frequencies_of(nv.s)[i] == nv.s[i].frequency);
            }
        }
    }
}

} // verus!
