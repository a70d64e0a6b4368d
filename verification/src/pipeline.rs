//! The fan-out pipeline: every key is looked up in the set of keys seen so
//! far, and the URL of a new key goes to the sitemap writer and to the batch
//! accumulator.

pub mod dedup;
pub mod fanout;
pub mod query;
pub mod run;
