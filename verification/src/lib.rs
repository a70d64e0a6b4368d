//! Size-bounded sitemap partitions with a master index, and IndexNow
//! submission batches, produced from a stream of catalog URLs.
//!
//! The library decides *what* is written *where* and in *which order*; it
//! performs no I/O itself. Every operation returns the list of
//! [`output::FileOp`] instructions that a driver must carry out, in order, on
//! the file system, and the driver abandons the run at the first instruction
//! that fails.
//!
//! - [`sitemap`]: the partitioned writer and the index of its partitions.
//! - [`indexnow`]: the batch accumulator and the submission document.
//! - [`pipeline`]: the set of keys seen, the search pages' URLs, and the
//!   fan-out to both sinks.
//! - [`division`]: how both sinks divide their input into numbered parts.
//! - [`output`]: the instructions, and what a list of them does to a file.
//! - [`text`]: decimal numerals, escaping, joining.

pub mod division;
pub mod indexnow;
pub mod output;
pub mod pipeline;
pub mod sitemap;
pub mod text;
