//! What can go wrong.

use vstd::prelude::*;

verus! {

/// A sequence of timestamps that is not the ping record of one identity.
#[derive(Clone, Copy, Debug, PartialEq, Eq)]
pub enum InvalidInputError {
    /// The timestamp at `index` denotes no instant of the calendar.
    OutOfRange { index: usize },
    /// The timestamp at `index` is earlier than the one before it.
    Unsorted { index: usize },
}

/// The ping store did not answer a query.
#[derive(Clone, Copy, Debug, PartialEq, Eq)]
pub struct StoreAccessError {}

/// The stored name of an identity is not the text of an identifier.
#[derive(Clone, Copy, Debug, PartialEq, Eq)]
pub struct IdentityParseError {}

/// Why an aggregation gave no result.
#[derive(Clone, Copy, Debug, PartialEq, Eq)]
pub enum AggregationError {
    /// The store failed to list the identities or the timestamps of one.
    StoreAccess,
    /// The store answered with timestamps that are no ping record.
    InvalidInput(InvalidInputError),
}

} // verus!
