//! Filter-list compiler and request-matching engine.
//!
//! The crate ingests raw filter-list text, compiles it into an immutable
//! engine snapshot, and evaluates outgoing requests against that snapshot
//! with precedence-resolved outcomes.

pub mod bytes;
pub mod coordinator;
pub mod engine;
pub mod filter_set;
pub mod host;
pub mod matching;
pub mod parse;
pub mod rule;
