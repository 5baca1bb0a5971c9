//! Errors of the transaction framer.
use vstd::prelude::*;

verus! {

/// Why a buffer was refused as a transaction or a message.
#[derive(Debug, Clone, Copy, PartialEq, Eq)]
pub enum TransactionViewError {
    /// The bytes do not hold a well-framed transaction or message.
    ParseError,
    /// The bytes are framed correctly but break a rule on their contents.
    SanitizeError,
}

/// The version of a transaction or message.
#[derive(Debug, Clone, Copy, PartialEq, Eq)]
pub enum TransactionVersion {
    /// The format without a version byte, which came before versioned messages.
    Legacy,
    /// The format with address table lookups.
    V0,
    /// The format with an inline transaction configuration.
    V1,
}

} // verus!
