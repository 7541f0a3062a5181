//! Size and time units, and the fixed parameters of the store.

use vstd::prelude::*;

verus! {

pub const KIB: u64 = 1024;
pub const MIB: u64 = 1024 * 1024;
pub const GIB: u64 = 1024 * 1024 * 1024;

pub const SECOND_NS: u64 = 1_000_000_000;
pub const MINUTE_NS: u64 = 60 * 1_000_000_000;
pub const HOUR_NS: u64 = 60 * 60 * 1_000_000_000;
pub const DAY_NS: u64 = 24 * 60 * 60 * 1_000_000_000;
pub const MONTH_NS: u64 = 30 * 24 * 60 * 60 * 1_000_000_000;

/// Fixed chunk size of every upload session: 1 MiB.
pub const CHUNK_SIZE: u32 = 1024 * 1024;

/// Default per-user quota: 10 GiB.
pub const DEFAULT_QUOTA_BYTES: u64 = 10 * 1024 * 1024 * 1024;

/// Upload sessions expire one hour after they are opened.
pub const UPLOAD_SESSION_TTL_NS: u64 = 60 * 60 * 1_000_000_000;

/// Download tokens issued with a plan are valid this long.
pub const DOWNLOAD_TOKEN_TTL_NS: u64 = 60 * 60 * 1_000_000_000;

/// A bucket stops accepting placements once it holds this much.
pub const BUCKET_SOFT_LIMIT_BYTES: u64 = 100 * 1024 * 1024 * 1024;

/// Absolute ceiling on what a bucket may hold.
pub const BUCKET_HARD_LIMIT_BYTES: u64 = 105 * 1024 * 1024 * 1024;

/// A principal is an opaque identity of at most 29 bytes.
pub const MAX_PRINCIPAL_LEN: usize = 29;

/// File and upload identifiers are exactly 16 bytes.
pub const FILE_ID_LEN: usize = 16;

/// A share-link token must carry at least this much entropy.
pub const MIN_LINK_TOKEN_LEN: usize = 16;

} // verus!
