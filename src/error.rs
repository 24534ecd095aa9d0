use vstd::prelude::*;

verus! {

/// The ways in which the library rejects its inputs.
#[derive(Debug, Clone, Copy, PartialEq, Eq, Structural)]
pub enum InputError {
    /// The alphabet is empty, holds a symbol twice, holds a non-ASCII symbol,
    /// or does not suit the chosen generation strategy.
    InvalidAlphabet,
    /// The requested length is zero, or too short for the chosen strategy.
    InvalidLength,
    /// Text given as a sequence holds a character outside 7-bit ASCII.
    InvalidEncoding,
    /// A statistic was asked of a batch that holds no sequence.
    EmptyBatch,
}

} // verus!
