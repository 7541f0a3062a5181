//! The bucket service: raw chunk bytes keyed by owner, file and chunk index
//! in an ordered store, guarded by capability tokens.

pub mod api;
pub mod config;
pub mod errors;
pub mod payments;
pub mod results;
pub mod types;
