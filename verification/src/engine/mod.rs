//! The scan engine: a state machine that schedules probes, matches replies,
//! retries what timed out and reports what it learns.
pub mod accounting;
pub mod laws;
pub mod model;
pub mod tracker;
pub mod worker;
