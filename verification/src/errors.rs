use vstd::prelude::*;

verus! {

/// Why a decode failed. Every failure is fatal to the whole decode call: no
/// partial value is ever returned and nothing is retried.
#[derive(Debug, Clone, Copy, PartialEq, Eq, Structural)]
pub enum DecodeError {
    /// A tag byte or tag word does not form a recognized pattern.
    MalformedHeader,
    /// A well-formed header names a type that the grammar does not allow at
    /// this point.
    UnexpectedObjectType,
    /// A decoded integer does not map to a recognized change-frequency
    /// constant.
    InvalidEnumValue,
    /// Fewer bytes remain than a fixed-width or length-prefixed read
    /// requires.
    UnexpectedEndOfStream,
    /// A declared array count exceeds the entries that remain readable.
    TruncatedArray,
}

} // verus!
