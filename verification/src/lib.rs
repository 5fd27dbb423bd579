//! Log analysis: parsing of semi-structured log lines into records, filtered
//! selection by time range, severity and keyword, and a per-level summary.
//!
//! Every function here carries a contract over a mathematical model of the
//! data (sequences of characters, sequences of records, maps of counts).

pub mod entry;
pub mod filter;
pub mod level;
pub mod parser;
pub mod pattern;
pub mod report;
pub mod summary;
pub mod text;
pub mod timestamp;
