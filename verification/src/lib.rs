//! Durability core of a namespaced short-link directory.
//!
//! Callers create, look up, and reverse-lookup mappings from a short form to a
//! long form, keyed by `(namespace, short_form)`.  The library owns the record
//! table and its access discipline, the coalescing dirty signal that tells the
//! backup scheduler work is due, the snapshot codec that turns the table into a
//! self-consistent byte sequence and back, and the scheduler's state machine.
//! The surrounding process supplies the transport, the clock, and the remote
//! object storage, and drives the scheduler loop with the events it observes.

pub mod bootstrap;
pub mod errors;
pub mod link;
pub mod persistence;
pub mod scheduler;
pub mod signal;
pub mod snapshot;
pub mod store;
