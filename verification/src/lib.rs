//! A two-tier chunked object store: a directory service that authorizes
//! uploads and downloads, meters quota, and issues HMAC-signed capability
//! tokens, together with bucket services that hold raw chunk bytes in an
//! ordered key-value store.

pub mod bucket;
pub mod directory;
pub mod shared;
pub mod store;
