//! Log replay for a Delta Lake table reader.
//!
//! The log of a table is read newest first. This crate reconciles the add and
//! remove actions of that stream into the set of live data files, prunes files
//! by their statistics and partition values, pairs every surviving file with the
//! expression that maps its physical columns to the logical schema, and finds
//! the latest transaction marker of each application.
//!
//! Every executable function is verified against a contract stated over the
//! mathematical views of the data types.

pub mod error;
pub mod schema;
pub mod expressions;
pub mod partition;
pub mod predicates;
pub mod engine_data;
pub mod log_replay;
pub mod utils;
pub mod scan;
pub mod actions;
