//! Verified core of a small note tracker: compact index/level range
//! expressions, calibration of relative bounds against a collection length,
//! and multi-predicate note filtering.

pub mod index;
pub mod note;
pub mod query;
pub mod random;
pub mod text;
pub mod workflow;
