//! Pattern substitution over in-memory text, with positional change tracking,
//! line-by-line review and summary statistics.

pub mod cli;
pub mod engine;
pub mod lines;
pub mod log;
pub mod matcher;
pub mod review;
pub mod stats;
pub mod text;
