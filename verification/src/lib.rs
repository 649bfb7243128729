//! Verified core of a two-party private-measurement Leader aggregator.
//!
//! Clients upload secret-shared measurements encrypted to two aggregators.
//! The Leader validates and decrypts its share of each report, queues it,
//! periodically runs a verify-and-accumulate round with the Helper, and
//! answers collect queries over time intervals while accounting for each
//! batch's privacy budget.
//!
//! Everything stateful lives in [`leader::Leader`]; the surrounding process
//! performs the HTTP exchanges and hands the wire messages to this library.

pub mod bucketing;
pub mod parameters;
pub mod errors;
pub mod fieldvec;
pub mod messages;
pub mod codec;
pub mod pending;
pub mod store;
pub mod vdaf;
pub mod sealing;
pub mod leader;
pub mod collector;
