//! Storage pricing: what a reservation of so many bytes for so many days
//! costs in cycles.

use vstd::prelude::*;

verus! {

/// Cycles one GiB costs per month.
pub const CYCLES_PER_GIB_MONTH: u128 = 100_000_000_000;

/// The least credit worth attempting an upload with.
pub const MIN_CREDIT_TO_START_UPLOAD: u128 = 10_000_000;

pub const GIB: u64 = 1024 * 1024 * 1024;

/// How long a reservation is priced for by default.
pub const DEFAULT_RETENTION_DAYS: u32 = 30;

/// What storing `size_bytes` for `days` days costs:
/// `size_bytes * (CYCLES_PER_GIB_MONTH / GIB) * days / 30`.
pub open spec fn spec_storage_cost(size_bytes: u64, days: u32) -> int {
    (size_bytes * (CYCLES_PER_GIB_MONTH as int / GIB as int) * days) / 30
}

/// What a reservation of `size_bytes` costs: the default retention priced.
pub open spec fn spec_reservation_cost(size_bytes: u64) -> int {
    spec_storage_cost(size_bytes, DEFAULT_RETENTION_DAYS)
}

/// The cost of storing `size_bytes` for `days` days:
/// `size_bytes * (CYCLES_PER_GIB_MONTH / GIB) * days / 30`.
pub fn estimate_storage_cost(size_bytes: u64, days: u32) -> (r: u128)
    ensures
        r == spec_storage_cost(size_bytes, days),
{
    let cycles_per_byte_month = CYCLES_PER_GIB_MONTH / (GIB as u128);
    proof {
        assert(CYCLES_PER_GIB_MONTH as int / GIB as int == 93) by (nonlinear_arith);
        assert((size_bytes as u128) * cycles_per_byte_month <= 0xffff_ffff_ffff_ffff * 93)
            by (nonlinear_arith)
            requires
                cycles_per_byte_month == 93,
                size_bytes <= 0xffff_ffff_ffff_ffff,
        ;
    }
    let total_for_month = (size_bytes as u128) * cycles_per_byte_month;
    proof {
        assert(total_for_month * (days as u128) <= 0xffff_ffff_ffff_ffff * 93 * 0xffff_ffff)
            by (nonlinear_arith)
            requires
                total_for_month <= 0xffff_ffff_ffff_ffff * 93,
                days <= 0xffff_ffff,
        ;
    }
    (total_for_month * (days as u128)) / 30
}

/// The cost of a reservation: the default retention priced by
/// `estimate_storage_cost`.
pub fn calculate_reservation_cost(size_bytes: u64) -> (r: u128)
    ensures
        r == spec_reservation_cost(size_bytes),
{
    estimate_storage_cost(size_bytes, DEFAULT_RETENTION_DAYS)
}

} // verus!
