//! Error taxonomy of the durability core.
//!
//! Only bootstrap failures are fatal to the surrounding process; every
//! backup-path failure is recovered by waiting for the next write to re-arm
//! the dirty signal.

use vstd::prelude::*;

verus! {

/// Local persistence failure: the record table could not be used or
/// reconstructed.  Request callers surface this as a request failure; it is
/// never silently swallowed.
#[derive(Clone, Copy, Debug, PartialEq, Eq, Structural)]
pub enum StoreError {
    /// The byte sequence handed to the decoder is not a well-formed snapshot.
    Malformed,
    /// The bytes parse, but two records share a `(namespace, short_form)`
    /// key, violating the table's uniqueness constraint.
    DuplicateKey,
    /// The underlying storage reported an input/output failure.  The verified
    /// code never constructs this variant; the process around the library
    /// uses it when local disk operations fail.
    Io,
}

/// Failure to produce a consistent snapshot within the retry budget.  The
/// backup scheduler logs it and returns to waiting; it never reaches a
/// request caller.
#[derive(Clone, Copy, Debug, PartialEq, Eq, Structural)]
pub enum SnapshotError {
    /// Every copy attempt found the table busy and the budget ran out.
    Busy,
}

/// Failure to upload snapshot bytes to the remote backend.  Recovered the
/// same way as `SnapshotError`: the next write re-triggers an attempt.
#[derive(Clone, Copy, Debug, PartialEq, Eq, Structural)]
pub enum PublishError {
    /// The backend could not be reached or did not accept the upload.
    Unavailable,
}

/// Failure to fetch or restore the initial snapshot at startup.  Fatal: the
/// process must refuse to begin serving, since an empty store would silently
/// diverge from the last durable state.  The variants keep the kind of the
/// underlying failure for diagnostics.
#[derive(Clone, Copy, Debug, PartialEq, Eq, Structural)]
pub enum BootstrapError {
    /// No snapshot exists at the configured remote key.
    MissingSnapshot,
    /// The remote fetch failed for a transient reason (network, backend).
    FetchFailed,
    /// The fetched bytes do not decode into a well-formed record table.
    CorruptSnapshot(StoreError),
}

} // verus!
