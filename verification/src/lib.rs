//! Removes every line that contains a forbidden substring from
//! gzip-compressed, newline-delimited logs.

pub mod codec;
pub mod counter;
pub mod discovery;
pub mod error;
pub mod filter;
pub mod lines;
pub mod pattern;
pub mod pool;
pub mod progress;
pub mod replace;
pub mod report;
pub mod rewrite;
pub mod totals;
