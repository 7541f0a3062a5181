//! The directory service: upload sessions, quota bookkeeping, file
//! metadata, bucket placement, access control and share links, and the
//! minting of signed capability tokens.

pub mod api;
pub mod billing;
pub mod config;
pub mod errors;
pub mod payments;
pub mod results;
pub mod types;
