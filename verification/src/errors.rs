use vstd::prelude::*;

verus! {

/// Every failure a decoding stage can report.
///
/// Checksum and parity mismatches are deliberately absent: a packet whose
/// checksums fail, or a byte whose parity flag is wrong, is filtered out
/// silently rather than reported, because filtering such noise is the
/// intended mechanism of those stages.
#[derive(Debug, Clone, Copy, PartialEq, Eq, Structural)]
pub enum LayerError {
    /// The base-85 envelope lacks its start delimiter `<~` or its end
    /// delimiter `~>`.
    MissingDelimiter,
    /// A byte between the envelope delimiters is not 7-bit ASCII.
    NonAsciiInput,
    /// A byte between the envelope delimiters is neither a base-85 symbol
    /// nor line-feed/carriage-return whitespace.
    InvalidSymbol,
    /// The count of parity-correct bytes is not a multiple of eight, so they
    /// cannot be repacked into whole output bytes.
    MisalignedInput,
    /// Too few bytes for an initial fixed-width header.
    TruncatedHeader,
    /// The key-unwrap stage's input is too short or not block-aligned.
    InvalidLength,
    /// The authenticated key unwrap rejected its input.
    KeyUnwrapFailed,
    /// The block-cipher decryption rejected its input.
    DecryptFailed,
    /// The payload marker was not found in the text handed over.
    MarkerNotFound,
}

} // verus!
