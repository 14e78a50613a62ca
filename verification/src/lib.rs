//! Content-addressed short-URL storage core.
//!
//! A URL is fingerprinted with a fixed-size content digest; the store keeps
//! at most one canonical record per digest and per short code, an alias
//! namespace resolving to canonical records, and named snapshots of a
//! serialized probabilistic membership filter.

pub mod digest;
pub mod model;
pub mod store;
pub mod laws;
