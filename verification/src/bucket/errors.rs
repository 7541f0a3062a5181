//! Everything a bucket call can fail with.

use vstd::prelude::*;

verus! {

#[derive(Debug)]
pub enum BucketError {
    PaymentFailed(String),
    InvalidSignature,
    TokenExpired,
    WrongBucket,
    ChunkNotAllowed(u32),
    InvalidFileId,
    ChunkNotFound,
    Unauthorized,
    AdminOnly,
    ReadOnly,
    Other(String),
}

} // verus!
