//! Tagged results of the directory endpoints: every call answers with an
//! `Ok` or `Err` variant, never a sentinel.

use vstd::prelude::*;

use crate::directory::errors::DirectoryError;
use crate::shared::types::{DownloadPlan, FileMeta, Principal, UploadSession, UploadToken};

verus! {

pub type StartUploadResult = Result<UploadSession, DirectoryError>;

pub type ReportChunkUploadedResult = Result<(), DirectoryError>;

pub type CommitUploadResult = Result<FileMeta, DirectoryError>;

pub type AbortUploadResult = Result<(), DirectoryError>;

pub type GetFileMetaResult = Result<FileMeta, DirectoryError>;

pub type GetDownloadPlanResult = Result<DownloadPlan, DirectoryError>;

pub type DeleteFileResult = Result<(), DirectoryError>;

pub type ProvisionBucketResult = Result<(), DirectoryError>;

pub type ListBucketResult = Result<Vec<Principal>, DirectoryError>;

pub type GetUploadTokensResult = Result<Vec<UploadToken>, DirectoryError>;

pub type TopUpBalanceResult = Result<u64, DirectoryError>;

pub type AdminWithdrawResult = Result<(), DirectoryError>;

pub type CreateShareLinkResult = Result<Vec<u8>, DirectoryError>;

pub type ResolveShareLinkResult = Result<DownloadPlan, DirectoryError>;

} // verus!
