//! Verified core of a location-consensus pipeline.
//!
//! Edge collectors report batches of location submissions for fixed time
//! intervals.  The library validates and clusters the submissions of an
//! interval into a capped list of winners, summarises the winners in a hex
//! merkle root, collects per-interval results from independent collectors,
//! finalises an interval by majority vote over the reported roots once a
//! quorum of collectors has reported, and appends the agreed result as a
//! block to an append-only ledger with chained hashes.  A reward store
//! accrues and pays out the winners' rewards.
//!
//! All hashing goes through the `sha2`, `hmac` and `hex` crates behind the
//! trusted boundary in [`hashing`]; everything else is verified.

pub mod cluster;
pub mod codec;
pub mod consensus;
pub mod hashing;
pub mod ledger;
pub mod merkle;
pub mod rewards;
pub mod validator;
