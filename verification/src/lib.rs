//! In-memory storage core for a personal life-timeline application.
//!
//! The store keeps a hierarchy of time-scoped events (years, periods,
//! events, markers), leaf content items attached to events, and a 2-D
//! canvas layer that positions items spatially.  Every write path
//! re-establishes the referential and ordering invariants that a
//! relational schema would express declaratively; the invariants are
//! stated as spec functions and proved to hold after every operation.
//!
//! Atomicity: every operation either succeeds with the invariant
//! re-established, or fails leaving the store exactly as it was — the
//! `ensures` clauses prove this rollback guarantee, and the multi-table
//! cascade is applied as one rewrite, so a partial cascade is never
//! observable.  The store is single-writer and owned by its caller;
//! several independent stores can coexist.
//!
//! Cycle policy: a parent's kind always sits strictly above its
//! child's, which is checked at every write, so a `parent_id` cycle is
//! unrepresentable and the ancestor walk is bounded by the number of
//! hierarchy levels.

pub mod errors;
pub mod kinds;
pub mod text;
pub mod ids;
pub mod records;
pub mod model;
pub mod store;
pub mod deletes;
pub mod items;
pub mod canvas;
pub mod query;
pub mod schema;
pub mod laws;
