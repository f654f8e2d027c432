//! Single-byte and pairwise XOR over hex-encoded buffers, and recovery of a
//! single-byte XOR key by scoring candidate plaintexts against English letter
//! frequencies.
use vstd::prelude::*;

pub mod hex;
pub mod rank;
pub mod score;
pub mod settings;
pub mod text;
pub mod xor;

verus! {

/// Why an operation of this library gave up.
#[derive(Debug, Clone, Copy, PartialEq, Eq, Structural)]
pub enum XorError {
    /// A character outside `0-9`, `a-f` and `A-F` stood where a hex digit was due.
    InvalidHexDigit(char),
    /// More candidates were asked for than there are single-byte keys.
    InsufficientCandidates,
}

} // verus!
