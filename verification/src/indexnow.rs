//! The IndexNow side: URLs are buffered and submitted in batches, each batch
//! one JSON document in a file of its own.

pub mod batching;
pub mod generator;
pub mod model;
