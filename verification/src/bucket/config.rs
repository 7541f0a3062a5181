//! Bucket configuration: admins, read-only gate, the shared token secret,
//! and the ledgers payments may name. Set once at initialization; an upgrade
//! replaces only the fields it names.

use vstd::prelude::*;

use crate::shared::types::Principal;

verus! {

/// Configuration a bucket runs with.
#[derive(Debug)]
pub struct Config {
    /// Principals with administrative rights over this bucket.
    pub admins: Option<Vec<Principal>>,
    /// Whether the bucket rejects writes.
    pub read_only: Option<bool>,
    /// Secret used to verify tokens issued by the directory.
    pub shared_secret: Option<Vec<u8>>,
    /// The ICP-like ledger (8 decimals).
    pub icp_ledger: Option<Principal>,
    /// The stable-like ledger (6 decimals).
    pub ckusdc_ledger: Option<Principal>,
}

/// Arguments for initializing a bucket.
#[derive(Debug)]
pub struct InitArgs {
    pub admins: Vec<Principal>,
    pub shared_secret: Vec<u8>,
}

/// Arguments for upgrading a bucket; absent fields keep their prior values.
#[derive(Debug)]
pub struct UpgradeArgs {
    pub admins: Option<Vec<Principal>>,
    pub shared_secret: Option<Vec<u8>>,
}

#[derive(Debug)]
pub enum Args {
    Init(InitArgs),
    Upgrade(Option<UpgradeArgs>),
}

impl From<InitArgs> for Config {
    fn from(args: InitArgs) -> Self {
        Config {
            admins: Some(args.admins),
            read_only: Some(false),
            shared_secret: Some(args.shared_secret),
            icp_ledger: None,
            ckusdc_ledger: None,
        }
    }
}

impl vstd::std_specs::convert::FromSpecImpl<InitArgs> for Config {
    open spec fn obeys_from_spec() -> bool {
        true
    }

    open spec fn from_spec(args: InitArgs) -> Self {
        Config {
            admins: Some(args.admins),
            read_only: Some(false),
            shared_secret: Some(args.shared_secret),
            icp_ledger: None,
            ckusdc_ledger: None,
        }
    }
}

impl Config {
    /// Applies an upgrade: each named field replaces the prior value, each
    /// absent field keeps it.
    pub fn apply_upgrade(&mut self, args: UpgradeArgs)
        ensures
            match args.admins {
                Some(a) => final(self).admins == Some(a),
                None => final(self).admins == old(self).admins,
            },
            match args.shared_secret {
                Some(s) => final(self).shared_secret == Some(s),
                None => final(self).shared_secret == old(self).shared_secret,
            },
            final(self).read_only == old(self).read_only,
            final(self).icp_ledger == old(self).icp_ledger,
            final(self).ckusdc_ledger == old(self).ckusdc_ledger,
    {
        if let Some(admins) = args.admins {
            self.admins = Some(admins);
        }
        if let Some(secret) = args.shared_secret {
            self.shared_secret = Some(secret);
        }
    }
}

} // verus!
