//! Keyspace search engine: exhaustive or randomized enumeration of a bounded
//! range of private-key candidates, derivation of each candidate's address
//! fingerprint, and race-free reporting of an exact match against a target.

pub mod config;
pub mod filter;
pub mod hexstr;
pub mod pipeline;
pub mod random;
pub mod range;
pub mod search;
pub mod u256;
