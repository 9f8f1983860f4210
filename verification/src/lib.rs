//! Aggregation of time-boxed promotional offers from a closed set of retail
//! chains: a registry of known dealers, normalization of raw wire records
//! into canonical offers with a comparable unit cost, staleness-driven cache
//! bookkeeping over a favorites set, and a term-based search with
//! deduplication.
//!
//! Network and file access live outside this crate; the functions here work
//! on plain values handed in by the caller.

pub mod date;
pub mod dealer;
pub mod offer;
pub mod output;
pub mod search;
pub mod text;
pub mod userdata;
