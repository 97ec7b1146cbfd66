//! Data records: one frequency sample of an N-port network.  A record is
//! `1 + 2 * N * N` numeric tokens — the frequency, followed by the N x N
//! matrix of value pairs in row-major order — possibly spread over several
//! physical lines for N above two, with inline `!` comments ignored.

use vstd::prelude::*;

use crate::errors::TouchstoneError;
use crate::errors::TouchstoneErrorV;
use crate::numeric::is_f64_literal;
use crate::numeric::parses_as_f64;
use crate::text::seq_views;
use crate::text::split_whitespace_tokens;
use crate::text::split_ws;
use crate::text::str_eq;
use crate::text::strip_comment;
use crate::text::strip_inline_comment;

verus! {

/// One matrix entry: the two numeric tokens of a network-parameter data
/// point, meaning real/imaginary, magnitude/angle, or decibel/angle per the
/// governing format.
#[derive(Debug, Clone)]
pub struct DataPair(pub String, pub String);

impl View for DataPair {
    type V = (Seq<char>, Seq<char>);

    open spec fn view(&self) -> (Seq<char>, Seq<char>) {
        (self.0@, self.1@)
    }
}

pub open spec fn row_views(r: Seq<DataPair>) -> Seq<(Seq<char>, Seq<char>)> {
    r.map_values(|p: DataPair| p@)
}

pub open spec fn matrix_views(rows: Seq<Vec<DataPair>>) -> Seq<Seq<(Seq<char>, Seq<char>)>> {
    rows.map_values(|r: Vec<DataPair>| row_views(r@))
}

/// A square matrix: at least one row, every row as long as there are rows.
pub open spec fn matrix_wf(m: Seq<Seq<(Seq<char>, Seq<char>)>>) -> bool {
    &&& 1 <= m.len()
    &&& forall|i: int| 0 <= i < m.len() ==> #[trigger] m[i].len() == m.len()
}

/// A square N x N container of value pairs with 1-indexed access matching
/// the electrical-engineering port-numbering convention.
#[derive(Debug, Clone)]
pub struct Matrix {
    pub rows: Vec<Vec<DataPair>>,
}

impl View for Matrix {
    type V = Seq<Seq<(Seq<char>, Seq<char>)>>;

    open spec fn view(&self) -> Seq<Seq<(Seq<char>, Seq<char>)>> {
        matrix_views(self.rows@)
    }
}

impl Matrix {
    /// The matrix invariant: square and nonempty.
    pub open spec fn wf(&self) -> bool {
        matrix_wf(self@)
    }

    /// The dimension N.
    pub fn size(&self) -> (n: usize)
        ensures
            n == self@.len(),
    {
        self.rows.len()
    }

    /// Builds a matrix from rows; rejects the input unless it is square
    /// and nonempty, naming the first offending row length.
    pub fn from_rows(rows: Vec<Vec<DataPair>>) -> (r: Result<Matrix, TouchstoneError>)
        ensures
            matrix_wf(matrix_views(rows@)) ==> r is Ok,
            r is Ok ==> matrix_wf(matrix_views(rows@)),
            match r {
                Ok(m) => m@ == matrix_views(rows@),
                Err(e) => e@ is NonSquareMatrix,
            },
    {
        let n = rows.len();
        if n == 0 {
            return Err(TouchstoneError::NonSquareMatrix { rows: 0, row_len: 0 });
        }
        let mut i: usize = 0;
        while i < n
            invariant
                i <= n,
                n == rows@.len(),
                forall|k: int| 0 <= k < i ==> #[trigger] rows@[k]@.len() == n,
            decreases n - i,
        {
            if rows[i].len() != n {
                proof {
                    assert(matrix_views(rows@)[i as int].len() == rows@[i as int]@.len());
                }
                return Err(
                    TouchstoneError::NonSquareMatrix { rows: n, row_len: rows[i].len() },
                );
            }
            i = i + 1;
        }
        let m = Matrix { rows };
        proof {
            assert forall|k: int| 0 <= k < m@.len() implies #[trigger] m@[k].len() == m@.len() by {
                assert(m@[k].len() == rows@[k]@.len());
            }
        }
        Ok(m)
    }

    /// The entry at 1-indexed (row, col): `get(1, 1)` is the top-left
    /// value pair.
    pub fn get(&self, row: usize, col: usize) -> (p: &DataPair)
        requires
            self.wf(),
            1 <= row <= self@.len(),
            1 <= col <= self@.len(),
        ensures
            p@ == self@[row - 1][col - 1],
    {
        proof {
            assert(self@.len() == self.rows@.len());
            assert(self@[row - 1] == row_views(self.rows@[row - 1]@));
            assert(self@[row - 1][col - 1] == self.rows@[row - 1]@[col - 1]@);
        }
        &self.rows[row - 1][col - 1]
    }

    /// Replaces the entry at 1-indexed (row, col).
    pub fn set(&mut self, row: usize, col: usize, value: DataPair)
        requires
            old(self).wf(),
            1 <= row <= old(self)@.len(),
            1 <= col <= old(self)@.len(),
        ensures
            final(self)@ == old(self)@.update(
                row - 1,
                old(self)@[row - 1].update(col - 1, value@),
            ),
            final(self).wf(),
    {
        let ghost before = self@;
        proof {
            assert(before.len() == self.rows@.len());
            assert(before[row - 1] == row_views(self.rows@[row - 1]@));
        }
        self.rows[row - 1][col - 1] = value;
        proof {
            assert(final(self)@ =~~= before.update(
                row - 1,
                before[row - 1].update(col - 1, value@),
            ));
        }
    }
}

/// The token count of one N-port data record.
pub open spec fn needed_tokens(n: int) -> int {
    1 + 2 * n * n
}

/// Whether every token is a numeric literal.
pub open spec fn all_f64_literals(ts: Seq<Seq<char>>) -> bool {
    forall|i: int| 0 <= i < ts.len() ==> is_f64_literal(#[trigger] ts[i])
}

/// The index of the first token that is not a numeric literal, or the
/// length if all are.
pub open spec fn first_non_literal(ts: Seq<Seq<char>>) -> int
    decreases ts.len(),
{
    if ts.len() == 0 {
        0
    } else if !is_f64_literal(ts[0]) {
        0
    } else {
        1 + first_non_literal(ts.skip(1))
    }
}

pub proof fn lemma_first_non_literal_at(ts: Seq<Seq<char>>, j: int)
    requires
        0 <= j <= ts.len(),
        forall|k: int| 0 <= k < j ==> is_f64_literal(#[trigger] ts[k]),
        j < ts.len() ==> !is_f64_literal(ts[j]),
    ensures
        first_non_literal(ts) == j,
    decreases ts.len(),
{
    if ts.len() > 0 && j > 0 {
        assert(forall|k: int| 0 <= k < j - 1 ==> is_f64_literal(#[trigger] ts.skip(1)[k]));
        lemma_first_non_literal_at(ts.skip(1), j - 1);
    }
}

/// The N x N pair matrix a record's tokens describe, row-major: entry
/// (r, c) is tokens `1 + 2 * (r * N + c)` and the one after it.
pub open spec fn sample_pairs(toks: Seq<Seq<char>>, n: int) -> Seq<Seq<(Seq<char>, Seq<char>)>> {
    Seq::new(
        n as nat,
        |r: int| Seq::new(n as nat, |c: int| (toks[1 + 2 * (r * n + c)], toks[2 + 2 * (r * n + c)])),
    )
}

/// One parsed frequency sample: the frequency token as written in the
/// file, in the file's declared unit, and the N x N matrix of value pairs
/// in the file's declared format.
#[derive(Debug, Clone)]
pub struct ParsedDataLine {
    pub frequency: String,
    pub values: Matrix,
}

/// The mathematical content of a [`ParsedDataLine`].
pub ghost struct SampleV {
    pub frequency: Seq<char>,
    pub pairs: Seq<Seq<(Seq<char>, Seq<char>)>>,
}

impl View for ParsedDataLine {
    type V = SampleV;

    open spec fn view(&self) -> SampleV {
        SampleV { frequency: self.frequency@, pairs: self.values@ }
    }
}

/// The sample a complete, all-numeric token sequence describes.
pub open spec fn spec_sample(toks: Seq<Seq<char>>, n: int) -> SampleV {
    SampleV { frequency: toks[0], pairs: sample_pairs(toks, n) }
}

/// What decomposing one record's tokens yields: the sample if the count
/// is exactly `1 + 2 * N * N` and every token is numeric, otherwise the
/// error naming the mismatch or the first bad token.
pub open spec fn spec_parse_data_tokens(toks: Seq<Seq<char>>, n: int) -> Result<
    SampleV,
    TouchstoneErrorV,
> {
    if toks.len() != needed_tokens(n) {
        Err(TouchstoneErrorV::WrongTokenCount { expected: needed_tokens(n), got: toks.len() as int })
    } else if !all_f64_literals(toks) {
        Err(TouchstoneErrorV::NumericParse { token: toks[first_non_literal(toks)] })
    } else {
        Ok(spec_sample(toks, n))
    }
}

/// The machine bound under which a record's token count can be computed:
/// `1 + 2 * N * N` must fit a `usize`.
pub open spec fn rank_countable(n: int) -> bool {
    1 <= n && needed_tokens(n) <= usize::MAX as int
}

/// Decomposes one record's tokens into a frequency sample of an N-port
/// network, validating the token count and every numeric token.
pub fn parse_data_tokens(tokens: &Vec<String>, n: usize) -> (r: Result<
    ParsedDataLine,
    TouchstoneError,
>)
    requires
        rank_countable(n as int),
    ensures
        match (r, spec_parse_data_tokens(seq_views(tokens@), n as int)) {
            (Ok(sample), Ok(sv)) => sample@ == sv && sample.values.wf() && sample@.pairs.len()
                == n,
            (Err(e), Err(ev)) => e@ == ev,
            _ => false,
        },
{
    let ghost toks = seq_views(tokens@);
    proof {
        let ni = n as int;
        assert((2 * ni) * ni >= 2 * ni && 2 * (ni * ni) == (2 * ni) * ni) by (nonlinear_arith)
            requires
                1 <= ni,
        ;
    }
    let needed = 1 + 2 * n * n;
    proof {
        assert(toks.len() == tokens@.len());
    }
    if tokens.len() != needed {
        return Err(TouchstoneError::WrongTokenCount { expected: needed, got: tokens.len() });
    }
    let mut i: usize = 0;
    while i < tokens.len()
        invariant
            i <= tokens.len(),
            toks == seq_views(tokens@),
            toks.len() == tokens@.len(),
            tokens@.len() == needed_tokens(n as int),
            forall|k: int| 0 <= k < i ==> is_f64_literal(#[trigger] toks[k]),
        decreases tokens.len() - i,
    {
        if !parses_as_f64(tokens[i].as_str()) {
            proof {
                assert(toks[i as int] == tokens@[i as int]@);
                lemma_first_non_literal_at(toks, i as int);
                assert(!all_f64_literals(toks));
            }
            return Err(TouchstoneError::NumericParse { token: tokens[i].clone() });
        }
        i = i + 1;
    }
    proof {
        lemma_first_non_literal_at(toks, toks.len() as int);
    }
    let mut rows: Vec<Vec<DataPair>> = Vec::new();
    let mut r: usize = 0;
    proof {
        assert(matrix_views(rows@) =~= Seq::<Seq<(Seq<char>, Seq<char>)>>::empty());
        assert(sample_pairs(toks, n as int).take(0) =~= Seq::<Seq<(Seq<char>, Seq<char>)>>::empty());
    }
    while r < n
        invariant
            r <= n,
            1 <= n,
            needed_tokens(n as int) <= usize::MAX as int,
            tokens@.len() == needed_tokens(n as int),
            toks == seq_views(tokens@),
            matrix_views(rows@) =~= sample_pairs(toks, n as int).take(r as int),
        decreases n - r,
    {
        let mut row: Vec<DataPair> = Vec::new();
        let mut c: usize = 0;
        proof {
            assert(row_views(row@) =~= Seq::<(Seq<char>, Seq<char>)>::empty());
            assert(sample_pairs(toks, n as int)[r as int].take(0) =~= Seq::<
                (Seq<char>, Seq<char>),
            >::empty());
        }
        while c < n
            invariant
                c <= n,
                r < n,
                needed_tokens(n as int) <= usize::MAX as int,
                tokens@.len() == needed_tokens(n as int),
                toks == seq_views(tokens@),
                row_views(row@) =~= sample_pairs(toks, n as int)[r as int].take(c as int),
            decreases n - c,
        {
            proof {
                let ni = n as int;
                let ri = r as int;
                let ci = c as int;
                assert(0 <= ri * ni && ri * ni + ci <= ni * ni - 1 && 2 * (ni * ni) == (2 * ni)
                    * ni) by (nonlinear_arith)
                    requires
                        0 <= ri < ni && 0 <= ci < ni,
                ;
            }
            let base = 2 * (r * n + c);
            let pair = DataPair(tokens[1 + base].clone(), tokens[2 + base].clone());
            proof {
                assert(toks[1 + base] == tokens@[1 + base]@);
                assert(toks[2 + base] == tokens@[2 + base]@);
                assert(sample_pairs(toks, n as int)[r as int][c as int] == (
                    toks[1 + 2 * (r as int * n as int + c as int)],
                    toks[2 + 2 * (r as int * n as int + c as int)],
                ));
                assert(row_views(row@.push(pair)) =~= row_views(row@).push(pair@));
            }
            row.push(pair);
            proof {
                assert(row_views(row@) =~= sample_pairs(toks, n as int)[r as int].take(c + 1));
            }
            c = c + 1;
        }
        proof {
            assert(row_views(row@) =~= sample_pairs(toks, n as int)[r as int]);
            assert(matrix_views(rows@.push(row)) =~= matrix_views(rows@).push(row_views(row@)));
        }
        rows.push(row);
        proof {
            assert(matrix_views(rows@) =~= sample_pairs(toks, n as int).take(r + 1));
        }
        r = r + 1;
    }
    proof {
        assert(matrix_views(rows@) =~= sample_pairs(toks, n as int));
    }
    let values = Matrix { rows };
    proof {
        assert forall|i2: int| 0 <= i2 < values@.len() implies #[trigger] values@[i2].len()
            == values@.len() by {
            assert(values@[i2] == sample_pairs(toks, n as int)[i2]);
        }
    }
    proof {
        assert(toks[0] == tokens@[0]@);
    }
    Ok(ParsedDataLine { frequency: tokens[0].clone(), values })
}

/// The supported frequency units of a data line, canonical case.
pub open spec fn supported_unit(u: Seq<char>) -> bool {
    u == "THz"@ || u == "GHz"@ || u == "MHz"@ || u == "kHz"@ || u == "Hz"@
}

/// The supported data formats, canonical case.
pub open spec fn supported_format(f: Seq<char>) -> bool {
    f == "RI"@ || f == "MA"@ || f == "DB"@
}

/// The tokens of one physical data line: everything from the first `!`
/// on is dropped, the rest splits on whitespace.
pub open spec fn data_line_tokens(line: Seq<char>) -> Seq<Seq<char>> {
    split_ws(strip_inline_comment(line))
}

/// What parsing one whole data line yields under a format, rank and
/// frequency unit: unit and format must be supported, and the line's
/// tokens must form one complete record.
pub open spec fn spec_parse_data_line(
    line: Seq<char>,
    format: Seq<char>,
    n: int,
    unit: Seq<char>,
) -> Result<SampleV, TouchstoneErrorV> {
    if !supported_unit(unit) {
        Err(TouchstoneErrorV::UnsupportedFrequencyUnit { unit })
    } else if !supported_format(format) {
        Err(TouchstoneErrorV::UnsupportedFormat { format })
    } else {
        spec_parse_data_tokens(data_line_tokens(line), n)
    }
}

/// Checks a frequency unit against the supported set.
pub fn is_supported_unit(unit: &str) -> (r: bool)
    ensures
        r == supported_unit(unit@),
{
    str_eq(unit, "THz") || str_eq(unit, "GHz") || str_eq(unit, "MHz") || str_eq(unit, "kHz")
        || str_eq(unit, "Hz")
}

/// Checks a data format against the supported set.
pub fn is_supported_format(format: &str) -> (r: bool)
    ensures
        r == supported_format(format@),
{
    str_eq(format, "RI") || str_eq(format, "MA") || str_eq(format, "DB")
}

/// Parses one physical line holding a complete N-port data record under
/// the governing format and frequency unit.
pub fn parse_data_line(data_line: String, format: &String, n: usize, frequency_unit: &String) -> (r:
    Result<ParsedDataLine, TouchstoneError>)
    requires
        rank_countable(n as int),
    ensures
        match (r, spec_parse_data_line(data_line@, format@, n as int, frequency_unit@)) {
            (Ok(sample), Ok(sv)) => sample@ == sv && sample.values.wf() && sample@.pairs.len()
                == n,
            (Err(e), Err(ev)) => e@ == ev,
            _ => false,
        },
{
    if !is_supported_unit(frequency_unit.as_str()) {
        return Err(TouchstoneError::UnsupportedFrequencyUnit { unit: frequency_unit.clone() });
    }
    if !is_supported_format(format.as_str()) {
        return Err(TouchstoneError::UnsupportedFormat { format: format.clone() });
    }
    let stripped = strip_comment(data_line.as_str());
    let tokens = split_whitespace_tokens(stripped);
    parse_data_tokens(&tokens, n)
}

} // verus!
