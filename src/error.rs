use vstd::prelude::*;

verus! {

/// The ways in which producing page codes can fail.
#[derive(Debug, Clone, Copy, PartialEq, Eq, Structural)]
pub enum Error {
    /// A source buffer could not be obtained.
    InputUnavailable,
    /// A payload exceeds what the encoder can hold at the chosen strength.
    PayloadTooLarge,
    /// The last page of a set was given as zero.
    InvalidPageCount,
    /// The encoder rejected a payload.
    EncodingFailed,
    /// A rendered code could not be written out.
    OutputWriteFailed,
}

} // verus!
