//! The Network: the top-level record one Touchstone file describes, and the
//! state machine that assembles it from the file's lines.  Each line is an
//! option line (`#`), a comment (`!`), or part of a data record; data tokens
//! accumulate until one `1 + 2 * N * N`-token record is complete, so a
//! record of a network with more than two ports may span physical lines,
//! with comments allowed between them.

use vstd::prelude::*;

use crate::data_line::all_f64_literals;
use crate::data_line::matrix_wf;
use crate::data_line::needed_tokens;
use crate::data_line::parse_data_tokens;
use crate::data_line::rank_countable;
use crate::data_line::spec_parse_data_tokens;
use crate::data_line::data_line_tokens;
use crate::data_line::DataPair;
use crate::data_line::ParsedDataLine;
use crate::data_line::SampleV;
use crate::errors::CascadeError;
use crate::errors::TouchstoneError;
use crate::errors::TouchstoneErrorV;
use crate::file_extension::extension_of;
use crate::file_extension::extension_part;
use crate::file_extension::extension_ports;
use crate::file_extension::is_valid_file_extension;
use crate::file_extension::spec_extension_ports;
use crate::file_extension::spec_valid_extension;
use crate::numeric::is_f64_literal;
use crate::numeric::parses_as_f64;
use crate::option_line::default_options;
use crate::option_line::parse_option_line;
use crate::option_line::spec_parse_option_line;
use crate::option_line::Options;
use crate::option_line::OptionsV;
use crate::text::first_char_is;
use crate::text::lines_of;
use crate::text::push_char;
use crate::text::seq_views;
use crate::text::split_lines;
use crate::text::split_whitespace_tokens;
use crate::text::str_eq;
use crate::text::strip_comment;

verus! {

/// The mathematical content of a [`Network`].
pub ghost struct NetworkV {
    pub name: Seq<char>,
    pub rank: int,
    pub frequency_unit: Seq<char>,
    pub parameter: Seq<char>,
    pub format: Seq<char>,
    pub resistance_string: Seq<char>,
    pub z0: Seq<char>,
    pub comments: Seq<Seq<char>>,
    pub comments_after_option_line: Seq<Seq<char>>,
    pub f: Seq<Seq<char>>,
    pub s: Seq<SampleV>,
}

pub open spec fn sample_views(s: Seq<ParsedDataLine>) -> Seq<SampleV> {
    s.map_values(|d: ParsedDataLine| d@)
}

/// The frequency tokens of a sample sequence, in order.
pub open spec fn frequencies_of(svs: Seq<SampleV>) -> Seq<Seq<char>> {
    svs.map_values(|sv: SampleV| sv.frequency)
}

/// One parsed N-port network: metadata from the option line and extension,
/// the comment lines before and after the option line, and the parallel
/// frequency/sample vectors.  Numeric values are carried as the tokens the
/// file spelled them with, in the file's declared unit and format.
#[derive(Debug, Clone)]
pub struct Network {
    pub name: String,
    pub rank: usize,
    pub frequency_unit: String,
    pub parameter: String,
    pub format: String,
    pub resistance_string: String,
    pub z0: String,
    pub comments: Vec<String>,
    pub comments_after_option_line: Vec<String>,
    pub f: Vec<String>,
    pub s: Vec<ParsedDataLine>,
}

impl View for Network {
    type V = NetworkV;

    open spec fn view(&self) -> NetworkV {
        NetworkV {
            name: self.name@,
            rank: self.rank as int,
            frequency_unit: self.frequency_unit@,
            parameter: self.parameter@,
            format: self.format@,
            resistance_string: self.resistance_string@,
            z0: self.z0@,
            comments: seq_views(self.comments@),
            comments_after_option_line: seq_views(self.comments_after_option_line@),
            f: seq_views(self.f@),
            s: sample_views(self.s@),
        }
    }
}

/// The Network invariant: a positive, machine-countable rank, frequency
/// and sample vectors of equal length and agreeing entry-wise on the
/// frequency token, and every sample a well-formed rank-sized matrix.
pub open spec fn network_wf(nv: NetworkV) -> bool {
    &&& rank_countable(nv.rank)
    &&& nv.f.len() == nv.s.len()
    &&& forall|i: int| 0 <= i < nv.s.len() ==> (#[trigger] nv.s[i]).frequency == nv.f[i]
    &&& forall|i: int|
        0 <= i < nv.s.len() ==> matrix_wf((#[trigger] nv.s[i]).pairs) && nv.s[i].pairs.len()
            == nv.rank
}

/// The running state of the line-by-line parse.
pub ghost struct ParseStateV {
    pub options: OptionsV,
    pub option_seen: bool,
    pub comments: Seq<Seq<char>>,
    pub comments_after: Seq<Seq<char>>,
    pub pending: Seq<Seq<char>>,
    pub samples: Seq<SampleV>,
}

/// Before any line: default options, nothing seen.
pub open spec fn initial_state() -> ParseStateV {
    ParseStateV {
        options: default_options(),
        option_seen: false,
        comments: Seq::empty(),
        comments_after: Seq::empty(),
        pending: Seq::empty(),
        samples: Seq::empty(),
    }
}

/// What one line does to the parse state of an N-port file.  A `#` line
/// is the option line — a second one is an error.  A `!` line is a
/// comment, routed by whether the option line was seen.  Any other line
/// contributes its tokens to the pending data record; a complete record
/// must be all-numeric and is appended as one sample, and overshooting
/// the record length is an error.
pub open spec fn step_line(st: ParseStateV, n: int, line: Seq<char>) -> Result<
    ParseStateV,
    TouchstoneErrorV,
> {
    if line.len() > 0 && line[0] == '#' {
        if st.option_seen {
            Err(TouchstoneErrorV::MultipleOptionLines)
        } else {
            Ok(
                ParseStateV {
                    options: spec_parse_option_line(st.options, line),
                    option_seen: true,
                    ..st
                },
            )
        }
    } else if line.len() > 0 && line[0] == '!' {
        if !st.option_seen {
            Ok(ParseStateV { comments: st.comments.push(line), ..st })
        } else {
            Ok(ParseStateV { comments_after: st.comments_after.push(line), ..st })
        }
    } else {
        let p = st.pending + data_line_tokens(line);
        if p.len() < needed_tokens(n) {
            Ok(ParseStateV { pending: p, ..st })
        } else if p.len() == needed_tokens(n) {
            match spec_parse_data_tokens(p, n) {
                Ok(sv) => Ok(
                    ParseStateV { pending: Seq::empty(), samples: st.samples.push(sv), ..st },
                ),
                Err(e) => Err(e),
            }
        } else {
            Err(
                TouchstoneErrorV::WrongTokenCount {
                    expected: needed_tokens(n),
                    got: p.len() as int,
                },
            )
        }
    }
}

/// The parse state after a sequence of lines, or the first error.
pub open spec fn run_lines(st: ParseStateV, n: int, lines: Seq<Seq<char>>) -> Result<
    ParseStateV,
    TouchstoneErrorV,
>
    decreases lines.len(),
{
    if lines.len() == 0 {
        Ok(st)
    } else {
        match step_line(st, n, lines[0]) {
            Ok(st2) => run_lines(st2, n, lines.skip(1)),
            Err(e) => Err(e),
        }
    }
}

/// The network a finished parse state describes: metadata from the
/// options, `z0` the reference-resistance token if it is numeric and `50`
/// otherwise, and the parallel frequency/sample vectors.
pub open spec fn network_of_state(name: Seq<char>, rank: int, st: ParseStateV) -> NetworkV {
    NetworkV {
        name: name,
        rank: rank,
        frequency_unit: st.options.frequency_unit,
        parameter: st.options.parameter,
        format: st.options.format,
        resistance_string: st.options.resistance_string,
        z0: if is_f64_literal(st.options.reference_resistance) {
            st.options.reference_resistance
        } else {
            "50"@
        },
        comments: st.comments,
        comments_after_option_line: st.comments_after,
        f: frequencies_of(st.samples),
        s: st.samples,
    }
}

/// What parsing a whole file yields.  The path's extension must match the
/// `sNp` grammar and declare a rank whose record length the machine can
/// count; the lines then run through [`step_line`], and a record left
/// incomplete at the end is an error.
pub open spec fn spec_parse_network(path: Seq<char>, contents: Seq<char>) -> Result<
    NetworkV,
    TouchstoneErrorV,
> {
    let ext = extension_of(path);
    if !(spec_valid_extension(ext) && rank_countable(spec_extension_ports(ext))
        && spec_extension_ports(ext) <= usize::MAX as int) {
        Err(TouchstoneErrorV::UnsupportedFileType { extension: ext })
    } else {
        let n = spec_extension_ports(ext);
        match run_lines(initial_state(), n, split_lines(contents)) {
            Ok(st) => {
                if st.pending.len() == 0 {
                    Ok(network_of_state(path, n, st))
                } else {
                    Err(
                        TouchstoneErrorV::WrongTokenCount {
                            expected: needed_tokens(n),
                            got: st.pending.len() as int,
                        },
                    )
                }
            },
            Err(e) => Err(e),
        }
    }
}

/// A line sequence rendered as text, each line closed with `\n`.
pub open spec fn render_lines(ls: Seq<Seq<char>>) -> Seq<char>
    decreases ls.len(),
{
    if ls.len() == 0 {
        Seq::empty()
    } else {
        render_lines(ls.drop_last()) + ls.last().push('\n')
    }
}

/// One matrix row rendered as ` a b` for each of its pairs, in order.
pub open spec fn render_row(row: Seq<(Seq<char>, Seq<char>)>) -> Seq<char>
    decreases row.len(),
{
    if row.len() == 0 {
        Seq::empty()
    } else {
        render_row(row.drop_last()) + " "@ + row.last().0 + " "@ + row.last().1
    }
}

/// All matrix rows rendered in row-major order on one line.
pub open spec fn render_rows(pairs: Seq<Seq<(Seq<char>, Seq<char>)>>) -> Seq<char>
    decreases pairs.len(),
{
    if pairs.len() == 0 {
        Seq::empty()
    } else {
        render_rows(pairs.drop_last()) + render_row(pairs.last())
    }
}

/// The rows after the first, each on a line of its own.
pub open spec fn render_tail_rows(pairs: Seq<Seq<(Seq<char>, Seq<char>)>>) -> Seq<char>
    decreases pairs.len(),
{
    if pairs.len() <= 1 {
        Seq::empty()
    } else {
        render_tail_rows(pairs.drop_last()) + render_row(pairs.last()).push('\n')
    }
}

/// One data record rendered back to text: a single line for up to two
/// ports; for more, the first row inline with the frequency and each
/// further row on its own line.
pub open spec fn render_sample(sv: SampleV, n: int) -> Seq<char> {
    if n <= 2 {
        sv.frequency + render_rows(sv.pairs).push('\n')
    } else {
        sv.frequency + (if sv.pairs.len() > 0 {
            render_row(sv.pairs[0])
        } else {
            Seq::empty()
        }).push('\n') + render_tail_rows(sv.pairs)
    }
}

/// All data records, in order.
pub open spec fn render_samples(svs: Seq<SampleV>, n: int) -> Seq<char>
    decreases svs.len(),
{
    if svs.len() == 0 {
        Seq::empty()
    } else {
        render_samples(svs.drop_last(), n) + render_sample(svs.last(), n)
    }
}

/// A network rendered back to Touchstone text: leading comments, the
/// option line with the network's `z0` as its resistance value, the
/// post-option comments, and one record per frequency, with every numeric
/// token written exactly as the network carries it.
pub open spec fn render_network(nv: NetworkV) -> Seq<char> {
    render_lines(nv.comments) + ("# "@ + nv.frequency_unit + " "@ + nv.parameter + " "@ + nv.format
        + " "@ + nv.resistance_string + " "@ + nv.z0).push('\n') + render_lines(
        nv.comments_after_option_line,
    ) + render_samples(nv.s, nv.rank)
}

/// Appends ` a b` for one value pair.
fn append_pair(out: &mut String, pair: &DataPair)
    ensures
        final(out)@ == old(out)@ + " "@ + pair@.0 + " "@ + pair@.1,
{
    out.append(" ");
    out.append(pair.0.as_str());
    out.append(" ");
    out.append(pair.1.as_str());
}

/// Appends one rendered matrix row.
fn append_row(out: &mut String, row: &Vec<DataPair>)
    ensures
        final(out)@ == old(out)@ + render_row(crate::data_line::row_views(row@)),
{
    let ghost rv = crate::data_line::row_views(row@);
    let mut c: usize = 0;
    proof {
        assert(rv.take(0) =~= Seq::<(Seq<char>, Seq<char>)>::empty());
        assert(out@ =~= old(out)@ + render_row(rv.take(0)));
    }
    while c < row.len()
        invariant
            c <= row.len(),
            rv == crate::data_line::row_views(row@),
            rv.len() == row@.len(),
            out@ == old(out)@ + render_row(rv.take(c as int)),
        decreases row.len() - c,
    {
        proof {
            assert(rv[c as int] == row@[c as int]@);
            assert(rv.take(c + 1).drop_last() =~= rv.take(c as int));
            assert(rv.take(c + 1).last() == rv[c as int]);
        }
        append_pair(out, &row[c]);
        proof {
            assert(out@ =~= old(out)@ + render_row(rv.take(c + 1)));
        }
        c = c + 1;
    }
    proof {
        assert(rv.take(rv.len() as int) =~= rv);
    }
}

/// One series entry a plot consumes: a frequency token and the value pair
/// at one matrix position.
#[derive(Debug, Clone)]
pub struct FrequencySample {
    pub frequency: String,
    pub value: DataPair,
}

/// The cascade preconditions: both operands two-port, with the same
/// reference impedance and the same frequency unit.
pub open spec fn cascade_compatible(a: NetworkV, b: NetworkV) -> bool {
    &&& a.rank == 2
    &&& b.rank == 2
    &&& a.z0 == b.z0
    &&& a.frequency_unit == b.frequency_unit
}

/// The error a failed cascade check returns: the first violated
/// precondition, with both offending values.
pub open spec fn spec_cascade_error(a: Network, b: Network) -> CascadeError {
    if a.rank != 2 || b.rank != 2 {
        CascadeError::NotTwoPort { left_rank: a.rank, right_rank: b.rank }
    } else if a.z0@ != b.z0@ {
        CascadeError::Z0Mismatch { left: a.z0, right: b.z0 }
    } else {
        CascadeError::FrequencyUnitMismatch { left: a.frequency_unit, right: b.frequency_unit }
    }
}

/// The synthesized name of a cascade.
pub open spec fn cascade_name(a: NetworkV, b: NetworkV) -> Seq<char> {
    "Cascaded("@ + a.name + ","@ + b.name + ")"@
}

/// The banner comment a cascade carries.
pub open spec fn cascade_banner_spec(a: NetworkV, b: NetworkV) -> Seq<char> {
    "! Cascaded network of "@ + a.name + " and "@ + b.name
}

/// The comment block of a cascade: the banner, each operand's comments
/// under a header quoting its name.
pub open spec fn cascade_comments(a: NetworkV, b: NetworkV) -> Seq<Seq<char>> {
    seq![
        cascade_banner_spec(a, b),
        "! Comments from first network (\""@ + a.name + "\"):"@,
    ] + a.comments + seq!["! Comments from second network (\""@ + b.name + "\"):"@] + b.comments
}

/// The post-option-line comment block of a cascade.
pub open spec fn cascade_comments_after(a: NetworkV, b: NetworkV) -> Seq<Seq<char>> {
    seq![
        cascade_banner_spec(a, b),
        "! Comments (after option line) from first network (\""@ + a.name + "\"):"@,
    ] + a.comments_after_option_line + seq![
        "! Comments (after option line) from second network (\""@ + b.name + "\"):"@,
    ] + b.comments_after_option_line
}

/// The cascade of two compatible networks, given the computed samples:
/// metadata copied from the first operand, name and comments synthesized,
/// frequencies those of the samples.
pub open spec fn spec_cascade_result(a: NetworkV, b: NetworkV, svs: Seq<SampleV>) -> NetworkV {
    NetworkV {
        name: cascade_name(a, b),
        rank: a.rank,
        frequency_unit: a.frequency_unit,
        parameter: a.parameter,
        format: a.format,
        resistance_string: a.resistance_string,
        z0: a.z0,
        comments: cascade_comments(a, b),
        comments_after_option_line: cascade_comments_after(a, b),
        f: frequencies_of(svs),
        s: svs,
    }
}

/// Builds the banner comment naming both operands.
fn cascade_banner(a: &Network, b: &Network) -> (r: String)
    ensures
        r@ == cascade_banner_spec(a@, b@),
{
    let mut r: String = "! Cascaded network of ".to_owned();
    r.append(a.name.as_str());
    r.append(" and ");
    r.append(b.name.as_str());
    proof {
        assert(r@ =~= cascade_banner_spec(a@, b@));
    }
    r
}

/// Builds a comment header of the form `<prefix><name>"):`.
fn quoted_header(prefix: &str, name: &String) -> (r: String)
    ensures
        r@ == prefix@ + name@ + "\"):"@,
{
    let mut r: String = prefix.to_owned();
    r.append(name.as_str());
    r.append("\"):");
    r
}

/// Appends a clone of every line of `src` to `dst`.
fn extend_clones(dst: &mut Vec<String>, src: &Vec<String>)
    ensures
        seq_views(final(dst)@) == seq_views(old(dst)@) + seq_views(src@),
{
    let mut i: usize = 0;
    proof {
        assert(seq_views(dst@) =~= seq_views(old(dst)@) + seq_views(src@).take(0));
    }
    while i < src.len()
        invariant
            i <= src.len(),
            src@.len() == seq_views(src@).len(),
            seq_views(dst@) == seq_views(old(dst)@) + seq_views(src@).take(i as int),
        decreases src.len() - i,
    {
        proof {
            assert(seq_views(dst@.push(src@[i as int])) =~= seq_views(dst@).push(src@[i as int]@));
            assert(seq_views(src@).take(i + 1).drop_last() =~= seq_views(src@).take(i as int));
            assert(seq_views(src@).take(i + 1).last() == src@[i as int]@);
            assert((seq_views(old(dst)@) + seq_views(src@).take(i as int)).push(src@[i as int]@)
                =~= seq_views(old(dst)@) + seq_views(src@).take(i + 1));
        }
        dst.push(src[i].clone());
        i = i + 1;
    }
    proof {
        assert(seq_views(src@).take(src@.len() as int) =~= seq_views(src@));
    }
}

/// The frequency tokens of a sample vector, cloned in order.
fn frequencies_vec(s: &Vec<ParsedDataLine>) -> (r: Vec<String>)
    ensures
        seq_views(r@) == frequencies_of(sample_views(s@)),
{
    let ghost target = frequencies_of(sample_views(s@));
    let mut r: Vec<String> = Vec::new();
    let mut i: usize = 0;
    proof {
        assert(seq_views(r@) =~= target.take(0));
    }
    while i < s.len()
        invariant
            i <= s.len(),
            target == frequencies_of(sample_views(s@)),
            target.len() == s@.len(),
            seq_views(r@) == target.take(i as int),
        decreases s.len() - i,
    {
        let freq = s[i].frequency.clone();
        proof {
            assert(target[i as int] == sample_views(s@)[i as int].frequency);
            assert(sample_views(s@)[i as int] == s@[i as int]@);
            assert(seq_views(r@.push(freq)) =~= seq_views(r@).push(freq@));
            assert(target.take(i + 1).drop_last() =~= target.take(i as int));
        }
        r.push(freq);
        proof {
            assert(seq_views(r@) =~= target.take(i + 1));
        }
        i = i + 1;
    }
    proof {
        assert(target.take(target.len() as int) =~= target);
    }
    r
}

impl Network {
    /// The Network invariant, on the value level.
    pub open spec fn wf(&self) -> bool {
        network_wf(self@)
    }

    /// Renders the network back to the text of a Touchstone file.  Every
    /// numeric token is written exactly as carried, so saving changes no
    /// value; the frequency stays in the network's declared unit.
    pub fn to_file_string(&self) -> (r: String)
        ensures
            r@ == render_network(self@),
    {
        let mut out = String::new();
        let ghost cviews = seq_views(self.comments@);
        let mut i: usize = 0;
        proof {
            assert(cviews.take(0) =~= Seq::<Seq<char>>::empty());
            assert(out@ =~= render_lines(cviews.take(0)));
        }
        while i < self.comments.len()
            invariant
                i <= self.comments.len(),
                cviews == seq_views(self.comments@),
                cviews.len() == self.comments@.len(),
                out@ == render_lines(cviews.take(i as int)),
            decreases self.comments.len() - i,
        {
            proof {
                assert(cviews[i as int] == self.comments@[i as int]@);
                assert(cviews.take(i + 1).drop_last() =~= cviews.take(i as int));
                assert(cviews.take(i + 1).last() == cviews[i as int]);
            }
            out.append(self.comments[i].as_str());
            push_char(&mut out, '\n');
            proof {
                assert(out@ =~= render_lines(cviews.take(i + 1)));
            }
            i = i + 1;
        }
        proof {
            assert(cviews.take(cviews.len() as int) =~= cviews);
        }
        out.append("# ");
        out.append(self.frequency_unit.as_str());
        out.append(" ");
        out.append(self.parameter.as_str());
        out.append(" ");
        out.append(self.format.as_str());
        out.append(" ");
        out.append(self.resistance_string.as_str());
        out.append(" ");
        out.append(self.z0.as_str());
        push_char(&mut out, '\n');
        let ghost head = render_lines(self@.comments) + ("# "@ + self@.frequency_unit + " "@
            + self@.parameter + " "@ + self@.format + " "@ + self@.resistance_string + " "@
            + self@.z0).push('\n');
        proof {
            assert(out@ =~= head);
        }
        let ghost aviews = seq_views(self.comments_after_option_line@);
        let mut j: usize = 0;
        proof {
            assert(aviews.take(0) =~= Seq::<Seq<char>>::empty());
            assert(out@ =~= head + render_lines(aviews.take(0)));
        }
        while j < self.comments_after_option_line.len()
            invariant
                j <= self.comments_after_option_line.len(),
                aviews == seq_views(self.comments_after_option_line@),
                aviews.len() == self.comments_after_option_line@.len(),
                out@ == head + render_lines(aviews.take(j as int)),
            decreases self.comments_after_option_line.len() - j,
        {
            proof {
                assert(aviews[j as int] == self.comments_after_option_line@[j as int]@);
                assert(aviews.take(j + 1).drop_last() =~= aviews.take(j as int));
                assert(aviews.take(j + 1).last() == aviews[j as int]);
            }
            out.append(self.comments_after_option_line[j].as_str());
            push_char(&mut out, '\n');
            proof {
                assert(out@ =~= head + render_lines(aviews.take(j + 1)));
            }
            j = j + 1;
        }
        proof {
            assert(aviews.take(aviews.len() as int) =~= aviews);
        }
        let ghost head2 = head + render_lines(self@.comments_after_option_line);
        let ghost svs = sample_views(self.s@);
        let mut k: usize = 0;
        proof {
            assert(svs.take(0) =~= Seq::<SampleV>::empty());
            assert(out@ =~= head2 + render_samples(svs.take(0), self.rank as int));
        }
        while k < self.s.len()
            invariant
                k <= self.s.len(),
                svs == sample_views(self.s@),
                svs.len() == self.s@.len(),
                out@ == head2 + render_samples(svs.take(k as int), self.rank as int),
            decreases self.s.len() - k,
        {
            proof {
                assert(svs[k as int] == self.s@[k as int]@);
                assert(svs.take(k + 1).drop_last() =~= svs.take(k as int));
                assert(svs.take(k + 1).last() == svs[k as int]);
            }
            let ghost before = out@;
            self.append_sample(&mut out, k);
            proof {
                assert(out@ =~= head2 + render_samples(svs.take(k + 1), self.rank as int));
            }
            k = k + 1;
        }
        proof {
            assert(svs.take(svs.len() as int) =~= svs);
        }
        out
    }

    /// Appends the rendered record of sample `k`.
    fn append_sample(&self, out: &mut String, k: usize)
        requires
            k < self.s@.len(),
        ensures
            final(out)@ == old(out)@ + render_sample(self.s@[k as int]@, self.rank as int),
    {
        let sample = &self.s[k];
        let ghost sv = sample@;
        out.append(sample.frequency.as_str());
        let rows = &sample.values.rows;
        let ghost pviews = sv.pairs;
        proof {
            assert(pviews == crate::data_line::matrix_views(rows@));
            assert(pviews.len() == rows@.len());
        }
        if self.rank <= 2 {
            let mut r: usize = 0;
            proof {
                assert(pviews.take(0) =~= Seq::<Seq<(Seq<char>, Seq<char>)>>::empty());
                assert(out@ =~= old(out)@ + sv.frequency + render_rows(pviews.take(0)));
            }
            while r < rows.len()
                invariant
                    r <= rows.len(),
                    pviews == crate::data_line::matrix_views(rows@),
                    pviews.len() == rows@.len(),
                    out@ == old(out)@ + sv.frequency + render_rows(pviews.take(r as int)),
                decreases rows.len() - r,
            {
                proof {
                    assert(pviews[r as int] == crate::data_line::row_views(rows@[r as int]@));
                    assert(pviews.take(r + 1).drop_last() =~= pviews.take(r as int));
                    assert(pviews.take(r + 1).last() == pviews[r as int]);
                }
                append_row(out, &rows[r]);
                proof {
                    assert(out@ =~= old(out)@ + sv.frequency + render_rows(pviews.take(r + 1)));
                }
                r = r + 1;
            }
            proof {
                assert(pviews.take(pviews.len() as int) =~= pviews);
            }
            push_char(out, '\n');
            proof {
                assert(out@ =~= old(out)@ + render_sample(sv, self.rank as int));
            }
        } else {
            if rows.len() == 0 {
                push_char(out, '\n');
                proof {
                    assert(out@ =~= old(out)@ + render_sample(sv, self.rank as int));
                }
            } else {
                proof {
                    assert(pviews[0] == crate::data_line::row_views(rows@[0]@));
                }
                append_row(out, &rows[0]);
                push_char(out, '\n');
                let ghost head = old(out)@ + sv.frequency + render_row(sv.pairs[0]).push('\n');
                proof {
                    assert(out@ =~= head);
                    assert(out@ =~= head + render_tail_rows(pviews.take(1)));
                }
                let mut r: usize = 1;
                while r < rows.len()
                    invariant
                        1 <= r <= rows.len(),
                        pviews == crate::data_line::matrix_views(rows@),
                        pviews.len() == rows@.len(),
                        out@ == head + render_tail_rows(pviews.take(r as int)),
                    decreases rows.len() - r,
                {
                    proof {
                        assert(pviews[r as int] == crate::data_line::row_views(rows@[r as int]@));
                        assert(pviews.take(r + 1).drop_last() =~= pviews.take(r as int));
                        assert(pviews.take(r + 1).last() == pviews[r as int]);
                    }
                    append_row(out, &rows[r]);
                    push_char(out, '\n');
                    proof {
                        assert(out@ =~= head + render_tail_rows(pviews.take(r + 1)));
                    }
                    r = r + 1;
                }
                proof {
                    assert(pviews.take(pviews.len() as int) =~= pviews);
                    assert(out@ =~= old(out)@ + render_sample(sv, self.rank as int));
                }
            }
        }
    }

    /// Checks the cascade preconditions against `other`: both networks
    /// two-port, same reference impedance, same frequency unit.  Touches
    /// neither operand; an error names the two mismatched values.
    pub fn cascade_check(&self, other: &Network) -> (r: Result<(), CascadeError>)
        ensures
            r is Ok <==> cascade_compatible(self@, other@),
            r is Err ==> r->Err_0 == spec_cascade_error(*self, *other),
    {
        if self.rank != 2 || other.rank != 2 {
            return Err(
                CascadeError::NotTwoPort { left_rank: self.rank, right_rank: other.rank },
            );
        }
        if !str_eq(self.z0.as_str(), other.z0.as_str()) {
            return Err(
                CascadeError::Z0Mismatch { left: self.z0.clone(), right: other.z0.clone() },
            );
        }
        if !str_eq(self.frequency_unit.as_str(), other.frequency_unit.as_str()) {
            return Err(
                CascadeError::FrequencyUnitMismatch {
                    left: self.frequency_unit.clone(),
                    right: other.frequency_unit.clone(),
                },
            );
        }
        Ok(())
    }

    /// Assembles the cascade of `self` and `other` from the per-frequency
    /// result samples the caller computed: one sample per index up to the
    /// shorter operand, each carrying `self`'s frequency token at that
    /// index.  The result copies `self`'s metadata, synthesizes the name
    /// and the labelled comment blocks, and truncates the frequency vector
    /// to the computed samples.
    pub fn cascade_with_samples(&self, other: &Network, s_new: Vec<ParsedDataLine>) -> (r: Network)
        requires
            self.wf(),
            other.wf(),
            cascade_compatible(self@, other@),
            s_new@.len() == vstd::math::min(self@.s.len() as int, other@.s.len() as int),
            forall|i: int|
                0 <= i < s_new@.len() ==> (#[trigger] s_new@[i])@.frequency == self@.s[i].frequency,
            forall|i: int|
                0 <= i < s_new@.len() ==> matrix_wf((#[trigger] s_new@[i])@.pairs)
                    && s_new@[i]@.pairs.len() == 2,
        ensures
            r@ == spec_cascade_result(self@, other@, sample_views(s_new@)),
            r.wf(),
    {
        let mut comments: Vec<String> = Vec::new();
        comments.push(cascade_banner(self, other));
        comments.push(quoted_header("! Comments from first network (\"", &self.name));
        proof {
            assert(seq_views(comments@) =~= seq![
                cascade_banner_spec(self@, other@),
                "! Comments from first network (\""@ + self@.name + "\"):"@,
            ]);
        }
        extend_clones(&mut comments, &self.comments);
        comments.push(quoted_header("! Comments from second network (\"", &other.name));
        proof {
            assert(seq_views(comments@) =~= seq![
                cascade_banner_spec(self@, other@),
                "! Comments from first network (\""@ + self@.name + "\"):"@,
            ] + self@.comments + seq![
                "! Comments from second network (\""@ + other@.name + "\"):"@,
            ]);
        }
        extend_clones(&mut comments, &other.comments);
        proof {
            assert(seq_views(comments@) =~= cascade_comments(self@, other@));
        }

        let mut comments_after: Vec<String> = Vec::new();
        comments_after.push(cascade_banner(self, other));
        comments_after.push(
            quoted_header("! Comments (after option line) from first network (\"", &self.name),
        );
        proof {
            assert(seq_views(comments_after@) =~= seq![
                cascade_banner_spec(self@, other@),
                "! Comments (after option line) from first network (\""@ + self@.name + "\"):"@,
            ]);
        }
        extend_clones(&mut comments_after, &self.comments_after_option_line);
        comments_after.push(
            quoted_header("! Comments (after option line) from second network (\"", &other.name),
        );
        proof {
            assert(seq_views(comments_after@) =~= seq![
                cascade_banner_spec(self@, other@),
                "! Comments (after option line) from first network (\""@ + self@.name + "\"):"@,
            ] + self@.comments_after_option_line + seq![
                "! Comments (after option line) from second network (\""@ + other@.name + "\"):"@,
            ]);
        }
        extend_clones(&mut comments_after, &other.comments_after_option_line);
        proof {
            assert(seq_views(comments_after@) =~= cascade_comments_after(self@, other@));
        }

        let mut new_name: String = "Cascaded(".to_owned();
        new_name.append(self.name.as_str());
        new_name.append(",");
        new_name.append(other.name.as_str());
        new_name.append(")");
        proof {
            assert(new_name@ =~= cascade_name(self@, other@));
        }

        let f = frequencies_vec(&s_new);
        let net = Network {
            name: new_name,
            rank: self.rank,
            frequency_unit: self.frequency_unit.clone(),
            parameter: self.parameter.clone(),
            format: self.format.clone(),
            resistance_string: self.resistance_string.clone(),
            z0: self.z0.clone(),
            comments: comments,
            comments_after_option_line: comments_after,
            f: f,
            s: s_new,
        };
        proof {
            assert(net@ == spec_cascade_result(self@, other@, sample_views(net.s@)));
            assert forall|i: int| 0 <= i < net@.s.len() implies (#[trigger] net@.s[i]).frequency
                == net@.f[i] by {
                assert(net@.f[i] == frequencies_of(sample_views(net.s@))[i]);
            }
            assert(network_wf(net@));
        }
        net
    }

    /// The frequency tokens, in file order.
    pub fn f(&self) -> (r: Vec<String>)
        ensures
            seq_views(r@) == self@.f,
    {
        let mut r: Vec<String> = Vec::new();
        let mut i: usize = 0;
        proof {
            assert(seq_views(r@) =~= self@.f.take(0));
        }
        while i < self.f.len()
            invariant
                i <= self.f.len(),
                self@.f.len() == self.f@.len(),
                seq_views(r@) == self@.f.take(i as int),
            decreases self.f.len() - i,
        {
            proof {
                assert(seq_views(r@.push(self.f@[i as int])) =~= seq_views(r@).push(
                    self.f@[i as int]@,
                ));
                assert(self@.f.take(i + 1).drop_last() =~= self@.f.take(i as int));
            }
            r.push(self.f[i].clone());
            proof {
                assert(seq_views(r@) =~= self@.f.take(i + 1));
            }
            i = i + 1;
        }
        proof {
            assert(self@.f.take(self@.f.len() as int) =~= self@.f);
        }
        r
    }

    /// The (frequency, value-pair) series of one matrix position, in file
    /// order: entry (j, k) of every sample, 1-indexed.
    pub fn s_pairs(&self, j: usize, k: usize) -> (r: Vec<FrequencySample>)
        requires
            self.wf(),
            1 <= j <= self@.rank,
            1 <= k <= self@.rank,
        ensures
            r@.len() == self@.s.len(),
            forall|i: int|
                0 <= i < r@.len() ==> (#[trigger] r@[i]).frequency@ == self@.s[i].frequency
                    && r@[i].value@ == self@.s[i].pairs[j - 1][k - 1],
    {
        let mut r: Vec<FrequencySample> = Vec::new();
        let mut i: usize = 0;
        while i < self.s.len()
            invariant
                i <= self.s.len(),
                self.wf(),
                1 <= j <= self@.rank,
                1 <= k <= self@.rank,
                self@.s.len() == self.s@.len(),
                r@.len() == i,
                forall|m: int|
                    0 <= m < i ==> (#[trigger] r@[m]).frequency@ == self@.s[m].frequency
                        && r@[m].value@ == self@.s[m].pairs[j - 1][k - 1],
            decreases self.s.len() - i,
        {
            let sample = &self.s[i];
            proof {
                assert(sample@ == self@.s[i as int]);
            }
            let pair = sample.values.get(j, k);
            r.push(
                FrequencySample {
                    frequency: sample.frequency.clone(),
                    value: DataPair(pair.0.clone(), pair.1.clone()),
                },
            );
            i = i + 1;
        }
        r
    }

    /// Parses the text of one Touchstone file into a network.  `file_path`
    /// is the file's name; its extension decides the port count.
    pub fn parse(file_path: String, contents: String) -> (r: Result<Network, TouchstoneError>)
        ensures
            match (r, spec_parse_network(file_path@, contents@)) {
                (Ok(net), Ok(nv)) => net@ == nv && net.wf(),
                (Err(e), Err(ev)) => e@ == ev,
                _ => false,
            },
    {
        let ext = extension_part(file_path.as_str());
        if !is_valid_file_extension(ext) {
            return Err(TouchstoneError::UnsupportedFileType { extension: ext.to_owned() });
        }
        proof {
            crate::file_extension::lemma_extension_ports_positive(ext@);
        }
        let n = match extension_ports(ext) {
            Some(v) => v,
            None => {
                return Err(TouchstoneError::UnsupportedFileType { extension: ext.to_owned() });
            },
        };
        // The record length 1 + 2 * n * n must fit a usize.
        if (n as u64) >= 0x1_0000_0000u64 {
            proof {
                let ni = n as int;
                assert((2 * ni) * ni >= 0x2_0000_0000_0000_0000int) by (nonlinear_arith)
                    requires
                        ni >= 0x1_0000_0000,
                ;
            }
            return Err(TouchstoneError::UnsupportedFileType { extension: ext.to_owned() });
        }
        proof {
            let ni = n as int;
            assert((2 * ni) * ni <= 2 * 0x1_0000_0000int * 0x1_0000_0000int) by (nonlinear_arith)
                requires
                    0 <= ni < 0x1_0000_0000int,
            ;
        }
        let n128: u128 = n as u128;
        let needed128: u128 = 1 + 2 * n128 * n128;
        if needed128 > usize::MAX as u128 {
            return Err(TouchstoneError::UnsupportedFileType { extension: ext.to_owned() });
        }
        let needed: usize = (needed128) as usize;
        proof {
            assert(needed == needed_tokens(n as int));
            assert(rank_countable(n as int));
        }
        let lines = lines_of(contents.as_str());
        let ghost lviews = seq_views(lines@);
        let ghost target = run_lines(initial_state(), n as int, lviews);

        let mut options = Options::default();
        let mut option_seen = false;
        let mut comments: Vec<String> = Vec::new();
        let mut comments_after: Vec<String> = Vec::new();
        let mut pending: Vec<String> = Vec::new();
        let mut samples: Vec<ParsedDataLine> = Vec::new();
        let mut f: Vec<String> = Vec::new();

        proof {
            assert(seq_views(comments@) =~= Seq::<Seq<char>>::empty());
            assert(seq_views(comments_after@) =~= Seq::<Seq<char>>::empty());
            assert(seq_views(pending@) =~= Seq::<Seq<char>>::empty());
            assert(sample_views(samples@) =~= Seq::<SampleV>::empty());
            assert(seq_views(f@) =~= Seq::<Seq<char>>::empty());
            assert(frequencies_of(sample_views(samples@)) =~= Seq::<Seq<char>>::empty());
            assert(lviews.skip(0) =~= lviews);
        }

        let mut i: usize = 0;
        while i < lines.len()
            invariant
                i <= lines.len(),
                lviews == seq_views(lines@),
                lviews.len() == lines@.len(),
                rank_countable(n as int),
                needed == needed_tokens(n as int),
                spec_valid_extension(extension_of(file_path@)),
                n as int == spec_extension_ports(extension_of(file_path@)),
                lviews == split_lines(contents@),
                target == run_lines(initial_state(), n as int, lviews),
                run_lines(
                    ParseStateV {
                        options: options@,
                        option_seen: option_seen,
                        comments: seq_views(comments@),
                        comments_after: seq_views(comments_after@),
                        pending: seq_views(pending@),
                        samples: sample_views(samples@),
                    },
                    n as int,
                    lviews.skip(i as int),
                ) == target,
                seq_views(f@) == frequencies_of(sample_views(samples@)),
                forall|k: int|
                    0 <= k < samples@.len() ==> matrix_wf((#[trigger] samples@[k])@.pairs)
                        && samples@[k]@.pairs.len() == n as int,
            decreases lines.len() - i,
        {
            let ghost st_before = ParseStateV {
                options: options@,
                option_seen: option_seen,
                comments: seq_views(comments@),
                comments_after: seq_views(comments_after@),
                pending: seq_views(pending@),
                samples: sample_views(samples@),
            };
            let ghost lv = lviews[i as int];
            proof {
                assert(lv == lines@[i as int]@);
                assert(lviews.skip(i as int)[0] == lv);
                assert(lviews.skip(i as int).skip(1) =~= lviews.skip(i + 1));
            }
            let line = &lines[i];
            if first_char_is(line.as_str(), '#') {
                if option_seen {
                    return Err(TouchstoneError::MultipleOptionLines);
                }
                parse_option_line(line.clone(), &mut options);
                option_seen = true;
            } else if first_char_is(line.as_str(), '!') {
                if !option_seen {
                    proof {
                        assert(seq_views(comments@.push(lines@[i as int])) =~= seq_views(
                            comments@,
                        ).push(lv));
                    }
                    comments.push(line.clone());
                } else {
                    proof {
                        assert(seq_views(comments_after@.push(lines@[i as int])) =~= seq_views(
                            comments_after@,
                        ).push(lv));
                    }
                    comments_after.push(line.clone());
                }
            } else {
                let stripped = strip_comment(line.as_str());
                let mut toks = split_whitespace_tokens(stripped);
                let ghost p = st_before.pending + data_line_tokens(lv);
                proof {
                    assert(seq_views(pending@ + toks@) =~= seq_views(pending@) + seq_views(toks@));
                }
                pending.append(&mut toks);
                proof {
                    assert(seq_views(pending@) == p);
                    assert(seq_views(pending@).len() == pending@.len());
                }
                if pending.len() < needed {
                    // The record is still incomplete; keep accumulating.
                } else if pending.len() == needed {
                    match parse_data_tokens(&pending, n) {
                        Ok(sample) => {
                            let freq = sample.frequency.clone();
                            proof {
                                assert(sample_views(samples@.push(sample)) =~= sample_views(
                                    samples@,
                                ).push(sample@));
                                assert(seq_views(f@.push(freq)) =~= seq_views(f@).push(freq@));
                                assert(frequencies_of(sample_views(samples@).push(sample@))
                                    =~= frequencies_of(sample_views(samples@)).push(
                                    sample@.frequency,
                                ));
                            }
                            samples.push(sample);
                            f.push(freq);
                            pending = Vec::new();
                            proof {
                                assert(seq_views(pending@) =~= Seq::<Seq<char>>::empty());
                            }
                        },
                        Err(e) => {
                            return Err(e);
                        },
                    }
                } else {
                    return Err(
                        TouchstoneError::WrongTokenCount { expected: needed, got: pending.len() },
                    );
                }
            }
            i = i + 1;
        }
        let ghost st_final = ParseStateV {
            options: options@,
            option_seen: option_seen,
            comments: seq_views(comments@),
            comments_after: seq_views(comments_after@),
            pending: seq_views(pending@),
            samples: sample_views(samples@),
        };
        proof {
            assert(lviews.skip(lines@.len() as int) =~= Seq::<Seq<char>>::empty());
            assert(target == Ok::<ParseStateV, TouchstoneErrorV>(st_final));
            assert(st_final.pending.len() == pending@.len());
        }
        if !pending.is_empty() {
            return Err(TouchstoneError::WrongTokenCount { expected: needed, got: pending.len() });
        }
        let z0 = if parses_as_f64(options.reference_resistance.as_str()) {
            options.reference_resistance.clone()
        } else {
            "50".to_owned()
        };
        let net = Network {
            name: file_path,
            rank: n,
            frequency_unit: options.frequency_unit,
            parameter: options.parameter,
            format: options.format,
            resistance_string: options.resistance_string,
            z0: z0,
            comments: comments,
            comments_after_option_line: comments_after,
            f: f,
            s: samples,
        };
        proof {
            assert(net@ == network_of_state(net@.name, n as int, st_final));
            assert(net@.f.len() == net@.s.len());
            assert forall|k: int| 0 <= k < net@.s.len() implies (#[trigger] net@.s[k]).frequency
                == net@.f[k] by {
                assert(net@.f[k] == frequencies_of(st_final.samples)[k]);
            }
            assert(network_wf(net@));
        }
        Ok(net)
    }
}

} // verus!
