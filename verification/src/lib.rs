//! A gauge voting and allocation engine.
//!
//! Weighted voters spread fractional allocations across the registered
//! options of a gauge; on a fixed epoch cadence an execution pass tallies
//! live voting power into per-option support, applies threshold, ordering
//! and cap rules to produce a bounded selected set, records it, and
//! advances the schedule.  Voting power and the adapter that consumes a
//! selected set live outside this crate: callers hand in power snapshots
//! and carry the returned set to the adapter.

pub mod controller;
pub mod error;
pub mod laws;
pub mod ledger;
pub mod queries;
pub mod select;
pub mod state;
pub mod strorder;
pub mod tally;
