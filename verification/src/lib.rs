//! Poll aggregation and requirement-evaluation engine.
//!
//! An organizer publishes a poll with one or more multi-choice questions,
//! respondents submit per-user answer vectors, and the engine derives whether
//! pre-declared outcomes have become true, based on counts of specific
//! answers. The crate provides the typed data model (`schema`), the metric
//! and requirement engine (`engine`), the authoritative poll store (`store`)
//! and the snapshot codec used for persistence (`snapshot`).
#![verifier::loop_isolation(false)]

use vstd::prelude::*;

pub mod schema;
pub mod engine;
pub mod snapshot;
pub mod store;

verus! {

/// Failure taxonomy of the engine.
///
/// `NotFound`: a referenced poll key is absent from the store.
/// `ValidationError`: an answer's shape or an index is out of range.
/// `PersistenceError`: writing or reading the snapshot failed (raised by the
/// unverified shell around the library, never by the library itself).
/// `LockError`: the store's lock could not be acquired (likewise raised only
/// by the shell).
#[derive(Clone, Copy, Debug, PartialEq, Eq)]
pub enum PollError {
    NotFound,
    ValidationError,
    PersistenceError,
    LockError,
}

} // verus!
