//! Scanning a table: which data files a query has to read.

pub mod data_skipping;
pub mod log_replay;
pub mod scan_row;
