//! The errors of the store.
use vstd::prelude::*;

verus! {

/// Why an operation of a store failed.
#[derive(Debug, Clone, PartialEq, Eq)]
pub enum Error {
    /// The bytes of a database key are not a key of the kind asked for.
    InvalidKey,
    /// The bytes of a stored item could not be decoded.
    DecodeError { message: String },
    /// The database itself reported a failure.
    DBError { message: String },
}

} // verus!
