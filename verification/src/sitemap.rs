//! The sitemap side: numbered partitions of URL entries and the index that
//! lists every partition.

pub mod closing;
pub mod generator;
pub mod indexer;
pub mod rotation;
