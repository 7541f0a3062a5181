//! Items used by both the directory and the bucket services: byte-level
//! helpers, the data model, and the capability-token signing scheme.

pub mod auth;
pub mod bytes;
pub mod constants;
pub mod text;
pub mod types;
