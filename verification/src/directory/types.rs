//! Directory bookkeeping records: per-user usage and quota, per-bucket
//! capacity, the recorded placement of a file, and the fee schedule names.

use vstd::prelude::*;

use crate::shared::types::{FileId, FileIdV, Principal};

verus! {

/// How much a user has stored and may store.
#[derive(Clone, Copy, Debug, PartialEq, Eq, Structural)]
pub struct UserState {
    pub used_bytes: u64,
    pub quota_bytes: u64,
}

impl View for UserState {
    type V = UserState;

    open spec fn view(&self) -> UserState {
        *self
    }
}

impl Default for UserState {
    /// A fresh user: nothing stored, the default 10 GiB quota.
    fn default() -> (r: UserState)
        ensures
            r.used_bytes == 0,
            r.quota_bytes == crate::shared::constants::DEFAULT_QUOTA_BYTES,
    {
        UserState { used_bytes: 0, quota_bytes: crate::shared::constants::DEFAULT_QUOTA_BYTES }
    }
}

/// One bucket as the directory sees it.
#[derive(Debug)]
pub struct BucketInfo {
    pub id: Principal,
    pub writable: bool,
    pub used_bytes: u64,
    pub soft_limit_bytes: u64,
    pub hard_limit_bytes: u64,
}

pub ghost struct BucketInfoV {
    pub id: Seq<u8>,
    pub writable: bool,
    pub used_bytes: u64,
    pub soft_limit_bytes: u64,
    pub hard_limit_bytes: u64,
}

impl View for BucketInfo {
    type V = BucketInfoV;

    open spec fn view(&self) -> BucketInfoV {
        BucketInfoV {
            id: self.id@,
            writable: self.writable,
            used_bytes: self.used_bytes,
            soft_limit_bytes: self.soft_limit_bytes,
            hard_limit_bytes: self.hard_limit_bytes,
        }
    }
}

impl Clone for BucketInfo {
    fn clone(&self) -> (r: Self)
        ensures
            r@ == self@,
    {
        BucketInfo {
            id: self.id.clone(),
            writable: self.writable,
            used_bytes: self.used_bytes,
            soft_limit_bytes: self.soft_limit_bytes,
            hard_limit_bytes: self.hard_limit_bytes,
        }
    }
}

/// The recorded, immutable placement of one file in one bucket.
#[derive(Debug)]
pub struct Placement {
    pub file_id: FileId,
    pub bucket: Principal,
}

pub ghost struct PlacementV {
    pub file_id: FileIdV,
    pub bucket: Seq<u8>,
}

impl View for Placement {
    type V = PlacementV;

    open spec fn view(&self) -> PlacementV {
        PlacementV { file_id: self.file_id@, bucket: self.bucket@ }
    }
}

impl Clone for Placement {
    fn clone(&self) -> (r: Self)
        ensures
            r@ == self@,
    {
        Placement { file_id: self.file_id.clone(), bucket: self.bucket.clone() }
    }
}

/// The directory's fee-bearing methods, with their flat fee in the default
/// 6-decimal unit.
#[derive(Clone, Copy, Debug)]
pub enum SignerMethods {
    StartUpload,
    PutChunk,
}

impl SignerMethods {
    /// The flat fee of one call: opening an upload costs 1,000,000 units,
    /// storing a chunk 100,000.
    pub fn fee(&self) -> (r: u64)
        ensures
            r == match *self {
                SignerMethods::StartUpload => 1_000_000u64,
                SignerMethods::PutChunk => 100_000u64,
            },
    {
        match self {
            SignerMethods::StartUpload => 1_000_000,
            SignerMethods::PutChunk => 100_000,
        }
    }
}

} // verus!
