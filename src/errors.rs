//! The error kinds that the library reports.
use vstd::prelude::*;

verus! {

/// An error of the library, with a human-readable detail.
#[derive(Debug, Clone, PartialEq, Eq)]
pub enum Error {
    /// Malformed info-protocol text.
    BadResponse(String),
    /// An argument that the library cannot work with.
    InvalidArgument(String),
    /// A value that may not serve as a record key.
    ParameterError(String),
    /// A failure to open or to use a connection.
    Connection(String),
}

/// A `BadResponse` error carrying `detail`.
pub fn bad_response(detail: &str) -> (e: Error)
    ensures
        e is BadResponse,
{
    Error::BadResponse(detail.to_owned())
}

} // verus!
