//! The failures that the library reports.

use vstd::prelude::*;

verus! {

/// Why a corpus could not be written, read or prepared for factorization.
#[derive(Clone, Copy, Debug, PartialEq, Eq, Structural)]
pub enum ModelError {
    /// The record with this index is not a list of tokens.
    MalformedDocument { index: usize },
    /// The tokens of a document could not be written as a record.
    UnwritableDocument,
    /// No topic was asked for.
    NoTopics,
}

} // verus!
