//! Error kinds surfaced by the storage core.
//!
//! Every validation and referential check runs before any write is
//! committed, so no invalid state is ever persisted; the error tells the
//! caller exactly which check refused the operation.

use vstd::prelude::*;

verus! {

/// The error kinds of the storage core.
#[derive(Clone, Copy, PartialEq, Eq, Structural, Debug)]
pub enum StoreError {
    /// Malformed input: a bad enum literal, or an end instant before the
    /// start instant.
    Validation,
    /// A referenced identifier is absent from the store.
    NotFound,
    /// The parent/child kind ordering of the event hierarchy would be
    /// violated.
    InvalidHierarchy,
    /// A uniqueness or cross-reference rule would be violated, e.g.
    /// deleting a still-referenced event without cascade, or placing an
    /// item on the canvas of an event that does not own it.
    Conflict,
    /// A schema migration step could not be applied.
    Migration,
    /// An ancestor walk exceeded its safety bound.
    CycleDetected,
    /// A transaction exceeded its time budget.  The in-memory core never
    /// raises this itself; it exists for callers that wrap operations in
    /// a timed queue.
    Timeout,
}

} // verus!
