//! Fees the bucket charges, per method and funding kind. Amounts paid from
//! the ICP-like ledger use 8 decimals; every other source uses 6.

use vstd::prelude::*;

use crate::shared::types::{pays_with_ledger, payment_view, PaymentType, Principal};

verus! {

#[derive(Clone, Copy, Debug)]
pub enum SignerMethods {
    PutChunk,
}

impl SignerMethods {
    /// The fee of one call: storing a chunk costs 300,000 units on the
    /// ICP-like ledger (8 decimals) and 30,000 otherwise (6 decimals).
    pub fn fee(&self, payment: &PaymentType, icp_ledger: &Principal) -> (r: u64)
        ensures
            r == if pays_with_ledger(payment_view(payment), icp_ledger@) {
                300_000u64
            } else {
                30_000u64
            },
    {
        let is_icp = match payment {
            PaymentType::CallerPaysTokens { ledger } => ledger == icp_ledger,
            PaymentType::PatronPaysTokens { ledger } => ledger == icp_ledger,
            _ => false,
        };
        match self {
            SignerMethods::PutChunk => {
                if is_icp {
                    300_000
                } else {
                    30_000
                }
            },
        }
    }
}

} // verus!
