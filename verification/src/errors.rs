//! Failure conditions of batch generation and batch-file decoding.
//!
//! Failures are values; input and output failures of the surrounding
//! process stay with the caller that performs that input and output.

use vstd::prelude::*;

verus! {

/// What can go wrong while generating or decoding a batch.
#[derive(Clone, Copy, Debug, PartialEq, Eq, Structural)]
pub enum CodeGenError {
    /// A persisted batch file does not parse: short input, a length prefix
    /// past the end, malformed filter bytes, or a malformed code list.
    CorruptBatchFile,
    /// The accept loop used up its attempt budget before reaching the
    /// target count.
    AddressSpaceExhaustion,
    /// No membership filter could be set up for the batch.
    FilterUnavailable,
}

} // verus!
