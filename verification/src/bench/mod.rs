//! What a benchmark of codecs measures and decides: its options, the
//! measurements of each run, and their summaries.

pub mod codecs;
pub mod merge;
pub mod opt;
pub mod results;
pub mod stat;
pub mod summary;
