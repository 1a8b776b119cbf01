//! Startup restore: seed the record table from the last remote snapshot
//! before serving any traffic.
//!
//! The fetch itself is the surrounding process's network call; it reports
//! here what it observed, and the library decides.  Any failure is fatal by
//! design — serving from an empty or missing store would silently diverge
//! from the last durable state — and the error keeps the kind of the
//! underlying failure for diagnostics.  Whether a first-ever deployment with
//! no prior snapshot may instead start empty is the operator's decision,
//! made outside this routine by seeding `Persistence::from_store` with a
//! fresh table.

use vstd::prelude::*;

use crate::errors::{BootstrapError, StoreError};
use crate::persistence::Persistence;
use crate::snapshot::{decode_store, parse_snapshot};
use crate::store::keys_unique;

verus! {

/// What the startup fetch of the remote snapshot observed.
pub enum FetchOutcome {
    /// The object at the configured key, in full.
    Fetched(Vec<u8>),
    /// No object exists at the configured key.
    NotFound,
    /// The backend could not be reached or did not answer.
    Unreachable,
}

/// Decide the startup restore: a core seeded with the decoded snapshot
/// exactly when the fetch delivered bytes that decode into a table with
/// unique keys; otherwise the fatal error of the matching kind.
pub fn bootstrap(outcome: FetchOutcome) -> (r: Result<Persistence, BootstrapError>)
    ensures
        match r {
            Ok(p) => p.wf() && !p.pending_backup() && (outcome matches FetchOutcome::Fetched(b)
                && parse_snapshot(b@) == Some(p.table())),
            Err(e) => match e {
                BootstrapError::MissingSnapshot => outcome is NotFound,
                BootstrapError::FetchFailed => outcome is Unreachable,
                BootstrapError::CorruptSnapshot(cause) => outcome matches FetchOutcome::Fetched(b)
                    && match cause {
                    StoreError::Malformed => parse_snapshot(b@) is None,
                    StoreError::DuplicateKey => parse_snapshot(b@) matches Some(s) && !keys_unique(
                        s,
                    ),
                    StoreError::Io => false,
                },
            },
        },
{
    match outcome {
        FetchOutcome::Fetched(bytes) => match decode_store(&bytes) {
            Ok(store) => Ok(Persistence::from_store(store)),
            Err(cause) => Err(BootstrapError::CorruptSnapshot(cause)),
        },
        FetchOutcome::NotFound => Err(BootstrapError::MissingSnapshot),
        FetchOutcome::Unreachable => Err(BootstrapError::FetchFailed),
    }
}

} // verus!
