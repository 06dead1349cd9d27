//! The failures that the library reports.

use vstd::prelude::*;

verus! {

/// What went wrong, by kind.
#[derive(PartialEq, Eq, Structural, Debug, Clone, Copy)]
pub enum OxenError {
    /// A commit, entry, schema or row is absent.
    NotFound,
    /// A network request failed.
    TransportFailure,
    /// A response body did not have the expected shape.
    SerializationFailure,
    /// A row index points at a row that is not there, or the commit chain
    /// loops.
    IndexCorrupt,
    /// A transfer failed on every attempt that the retry budget allowed.
    UploadFailed,
    /// The target of a fresh clone is already present.
    AlreadyExists,
    /// A URL that does not parse.
    InvalidUrl,
}

} // verus!
