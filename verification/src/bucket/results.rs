//! Tagged results of the bucket endpoints: every call answers with an `Ok`
//! or `Err` variant, never a sentinel.

use crate::bucket::errors::BucketError;
use vstd::prelude::*;

verus! {

pub type PutChunkResult = Result<u32, BucketError>;

pub type GetChunkResult = Result<Vec<u8>, BucketError>;

pub type DeleteFileResult = Result<(), BucketError>;

pub type AdminWithdrawResult = Result<(), BucketError>;

pub type AdminSetReadOnlyResult = Result<(), BucketError>;

} // verus!
