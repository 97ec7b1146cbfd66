//! Verified core of a Touchstone (`.sNp`) network-parameter file library:
//! file-extension validation, option-line and data-line parsing, network
//! assembly, serialization, two-port cascade bookkeeping, and command-line
//! planning, all specified over character sequences and proved free of
//! panics.  Numeric values are carried as the tokens the file spells them
//! with; turning them into floating-point numbers, and the arithmetic on
//! those, is left to callers.

pub mod cli;
pub mod data_line;
pub mod errors;
pub mod file_extension;
pub mod file_operations;
pub mod network;
pub mod numeric;
pub mod option_line;
pub mod roundtrip;
pub mod text;

pub use file_extension::is_valid_file_extension;
pub use network::Network;
