//! Typed errors for the fatal input-validation conditions: every variant
//! carries the offending value and the constraint it broke, so a caller can
//! report the failure without re-running anything.

use vstd::prelude::*;

verus! {

/// The mathematical content of a [`TouchstoneError`].
pub ghost enum TouchstoneErrorV {
    /// The file extension does not match the `sNp` grammar, or declares a
    /// port count the machine cannot hold.
    UnsupportedFileType { extension: Seq<char> },
    /// A data record does not hold exactly `1 + 2 * N * N` numeric tokens.
    WrongTokenCount { expected: int, got: int },
    /// A data-record token is not a numeric literal.
    NumericParse { token: Seq<char> },
    /// A format other than `RI`, `MA`, `DB` governs a data line.
    UnsupportedFormat { format: Seq<char> },
    /// A frequency unit other than `THz`, `GHz`, `MHz`, `kHz`, `Hz`
    /// governs a data line.
    UnsupportedFrequencyUnit { unit: Seq<char> },
    /// A second option line was found; only one is allowed.
    MultipleOptionLines,
    /// A row handed to the matrix builder does not have as many entries
    /// as there are rows.
    NonSquareMatrix { rows: int, row_len: int },
}

/// A fatal input-validation error of parsing or matrix assembly.
#[derive(Debug)]
pub enum TouchstoneError {
    UnsupportedFileType { extension: String },
    WrongTokenCount { expected: usize, got: usize },
    NumericParse { token: String },
    UnsupportedFormat { format: String },
    UnsupportedFrequencyUnit { unit: String },
    MultipleOptionLines,
    NonSquareMatrix { rows: usize, row_len: usize },
}

impl View for TouchstoneError {
    type V = TouchstoneErrorV;

    open spec fn view(&self) -> TouchstoneErrorV {
        match self {
            TouchstoneError::UnsupportedFileType { extension } => {
                TouchstoneErrorV::UnsupportedFileType { extension: extension@ }
            },
            TouchstoneError::WrongTokenCount { expected, got } => {
                TouchstoneErrorV::WrongTokenCount {
                    expected: *expected as int,
                    got: *got as int,
                }
            },
            TouchstoneError::NumericParse { token } => {
                TouchstoneErrorV::NumericParse { token: token@ }
            },
            TouchstoneError::UnsupportedFormat { format } => {
                TouchstoneErrorV::UnsupportedFormat { format: format@ }
            },
            TouchstoneError::UnsupportedFrequencyUnit { unit } => {
                TouchstoneErrorV::UnsupportedFrequencyUnit { unit: unit@ }
            },
            TouchstoneError::MultipleOptionLines => TouchstoneErrorV::MultipleOptionLines,
            TouchstoneError::NonSquareMatrix { rows, row_len } => {
                TouchstoneErrorV::NonSquareMatrix {
                    rows: *rows as int,
                    row_len: *row_len as int,
                }
            },
        }
    }
}

/// A cascade precondition violation.  Cascading leaves its operands
/// untouched whenever one of these is returned.
#[derive(Debug)]
pub enum CascadeError {
    /// Cascading is implemented for two-port networks only.
    NotTwoPort { left_rank: usize, right_rank: usize },
    /// The two networks carry different reference impedances.
    Z0Mismatch { left: String, right: String },
    /// The two networks carry different frequency units.
    FrequencyUnitMismatch { left: String, right: String },
}

} // verus!
