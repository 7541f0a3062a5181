//! The directory endpoints and the invariants that tie its tables together:
//! every user's `used_bytes` equals the total size of the files they own,
//! every open session's file identity is fresh, and every table is keyed
//! exactly by what its records say.

use vstd::prelude::*;

use crate::directory::config::Config;
use crate::directory::errors::DirectoryError;
use crate::directory::results::{
    AbortUploadResult, AdminWithdrawResult, CommitUploadResult, CreateShareLinkResult,
    DeleteFileResult, GetDownloadPlanResult, GetFileMetaResult, GetUploadTokensResult,
    ProvisionBucketResult, ReportChunkUploadedResult, ResolveShareLinkResult, StartUploadResult,
};
use crate::directory::types::{BucketInfo, BucketInfoV, Placement, PlacementV, UserState};
use crate::shared::auth::{sign_download_token, sign_token, upload_token_msg, download_token_msg, hmac_sha256, upload_sig_valid, download_sig_valid};
use crate::shared::bytes::u64_to_be;
use crate::shared::constants::{
    CHUNK_SIZE, DEFAULT_QUOTA_BYTES, DOWNLOAD_TOKEN_TTL_NS, FILE_ID_LEN, MAX_PRINCIPAL_LEN,
    MIN_LINK_TOKEN_LEN, UPLOAD_SESSION_TTL_NS, BUCKET_SOFT_LIMIT_BYTES, BUCKET_HARD_LIMIT_BYTES,
};
use crate::shared::types::{
    file_key, file_key_bytes, lemma_file_key_inj, ChunkLocation, DownloadAuth, DownloadPlan,
    DownloadToken, DownloadTokenV, FileId, FileIdV, FileMeta, FileMetaV, FileRole, FileStatus,
    LinkInfo, LinkInfoV, Principal, UploadSession, UploadSessionV, UploadToken, UploadTokenV,
};
use crate::store::{
    kv_contains, kv_get, kv_idx, kv_sorted, kv_sum, lemma_kv_get_at, lemma_kv_sum_insert,
    lemma_kv_sum_remove, lemma_kv_sum_update, lemma_kv_sum_zero, lemma_kv_unique, Store,
};
use vstd::string::StringExecFns;

verus! {

/// The directory's whole state.
pub struct Directory {
    pub id: Principal,
    pub config: Config,
    pub users: Store<UserState>,
    pub files: Store<FileMeta>,
    pub uploads: Store<UploadSession>,
    pub file_to_bucket: Store<Placement>,
    pub buckets: Store<BucketInfo>,
    pub links: Store<LinkInfo>,
}

/// What the directory's behaviour depends on: its identity, the effective
/// admin set, rate and secret, and the six tables.
pub ghost struct DirectoryV {
    pub id: Seq<u8>,
    pub admins: Seq<Seq<u8>>,
    pub rate_per_gb_per_month: Option<u64>,
    pub secret: Seq<u8>,
    pub users: Seq<(Seq<u8>, UserState)>,
    pub files: Seq<(Seq<u8>, FileMetaV)>,
    pub uploads: Seq<(Seq<u8>, UploadSessionV)>,
    pub file_to_bucket: Seq<(Seq<u8>, PlacementV)>,
    pub buckets: Seq<(Seq<u8>, BucketInfoV)>,
    pub links: Seq<(Seq<u8>, LinkInfoV)>,
}

impl View for Directory {
    type V = DirectoryV;

    open spec fn view(&self) -> DirectoryV {
        DirectoryV {
            id: self.id@,
            admins: match self.config.admins {
                Some(a) => a@.map_values(|p: Principal| p@),
                None => Seq::empty(),
            },
            rate_per_gb_per_month: self.config.rate_per_gb_per_month,
            secret: match self.config.shared_secret {
                Some(s) => s@,
                None => Seq::empty(),
            },
            users: self.users.kseq(),
            files: self.files.kseq(),
            uploads: self.uploads.kseq(),
            file_to_bucket: self.file_to_bucket.kseq(),
            buckets: self.buckets.kseq(),
            links: self.links.kseq(),
        }
    }
}

/// The total size of the files owned by `owner`.
pub open spec fn owned_bytes(files: Seq<(Seq<u8>, FileMetaV)>, owner: Seq<u8>) -> int {
    kv_sum(
        files,
        |e: (Seq<u8>, FileMetaV)|
            if e.1.file_id.owner == owner {
                e.1.size_bytes as int
            } else {
                0
            },
    )
}

/// A stored file row is internally consistent: keyed by its identity, with
/// a well-formed identity, fixed-size chunks, and a chunk count that is
/// exactly the ceiling of its size over the chunk size.
pub open spec fn file_row_ok(e: (Seq<u8>, FileMetaV)) -> bool {
    &&& e.0 == file_key(e.1.file_id)
    &&& e.1.file_id.owner.len() <= MAX_PRINCIPAL_LEN
    &&& e.1.file_id.id.len() == FILE_ID_LEN
    &&& e.1.chunk_size == CHUNK_SIZE
    &&& e.1.chunk_count == chunk_count_of(e.1.size_bytes)
}

/// An open session is internally consistent: keyed by its upload id, which
/// is also its file's 16-byte id, reported chunks are distinct and in
/// range.
pub open spec fn session_row_ok(e: (Seq<u8>, UploadSessionV)) -> bool {
    &&& e.0 == e.1.upload_id
    &&& e.1.upload_id.len() == FILE_ID_LEN
    &&& e.1.file_id.id == e.1.upload_id
    &&& e.1.file_id.owner.len() <= MAX_PRINCIPAL_LEN
    &&& e.1.chunk_size == CHUNK_SIZE
    &&& e.1.expected_chunk_count == chunk_count_of(e.1.expected_size_bytes)
    &&& forall|a: int, b: int|
        0 <= a < b < e.1.uploaded_chunks.len() ==> (#[trigger] e.1.uploaded_chunks[a]) != (
        #[trigger] e.1.uploaded_chunks[b])
    &&& forall|a: int|
        0 <= a < e.1.uploaded_chunks.len() ==> (#[trigger] e.1.uploaded_chunks[a])
            < e.1.expected_chunk_count
}

/// The directory invariant. Beyond each table being sorted by key:
/// rows are keyed by what they say, a session's file identity is never
/// already a stored file, every file's owner has a user row, and every
/// user's `used_bytes` is exactly the total size of the files they own.
pub open spec fn dir_inv(d: DirectoryV) -> bool {
    &&& kv_sorted(d.users)
    &&& kv_sorted(d.files)
    &&& kv_sorted(d.uploads)
    &&& kv_sorted(d.file_to_bucket)
    &&& kv_sorted(d.buckets)
    &&& kv_sorted(d.links)
    &&& forall|i: int| 0 <= i < d.files.len() ==> file_row_ok(#[trigger] d.files[i])
    &&& forall|i: int| 0 <= i < d.uploads.len() ==> session_row_ok(#[trigger] d.uploads[i])
    &&& forall|i: int|
        0 <= i < d.uploads.len() ==> !kv_contains(
            d.files,
            file_key((#[trigger] d.uploads[i]).1.file_id),
        )
    &&& forall|i: int|
        0 <= i < d.files.len() ==> kv_contains(d.users, (#[trigger] d.files[i]).1.file_id.owner)
    &&& forall|i: int|
        0 <= i < d.users.len() ==> (#[trigger] d.users[i]).1.used_bytes == owned_bytes(
            d.files,
            d.users[i].0,
        )
    &&& forall|i: int|
        0 <= i < d.buckets.len() ==> (#[trigger] d.buckets[i]).0 == d.buckets[i].1.id
    &&& forall|i: int|
        0 <= i < d.file_to_bucket.len() ==> (#[trigger] d.file_to_bucket[i]).0 == file_key(
            d.file_to_bucket[i].1.file_id,
        ) && d.file_to_bucket[i].1.file_id.owner.len() <= MAX_PRINCIPAL_LEN
            && d.file_to_bucket[i].1.file_id.id.len() == FILE_ID_LEN
}

/// Quota conservation: for every user, `used_bytes` equals the summed size
/// of the files they own; a principal without a user row owns nothing.
pub proof fn lemma_quota_conservation(d: DirectoryV, u: Seq<u8>)
    requires
        dir_inv(d),
    ensures
        kv_get(d.users, u) matches Some(st) ==> st.used_bytes == owned_bytes(d.files, u),
        kv_get(d.users, u) is None ==> owned_bytes(d.files, u) == 0,
{
    if kv_contains(d.users, u) {
        let i = kv_idx(d.users, u);
        assert(0 <= i < d.users.len() && d.users[i].0 == u);
    } else {
        let f = |e: (Seq<u8>, FileMetaV)|
            if e.1.file_id.owner == u {
                e.1.size_bytes as int
            } else {
                0
            };
        assert forall|i: int| 0 <= i < d.files.len() implies f(#[trigger] d.files[i]) == 0 by {
            assert(kv_contains(d.users, d.files[i].1.file_id.owner));
        }
        lemma_kv_sum_zero(d.files, f);
    }
}

/// The caller may read the file: they own it or stand in its reader or
/// writer lists.
pub open spec fn can_read(m: FileMetaV, caller: Seq<u8>) -> bool {
    caller == m.file_id.owner || m.readers.contains(caller) || m.writers.contains(caller)
}

/// The caller may change or delete the file: they own it or stand in its
/// writer list.
pub open spec fn can_write(m: FileMetaV, caller: Seq<u8>) -> bool {
    caller == m.file_id.owner || m.writers.contains(caller)
}

/// The caller is a controller or a configured admin.
pub open spec fn is_dir_admin(d: DirectoryV, caller: Seq<u8>, is_controller: bool) -> bool {
    is_controller || d.admins.contains(caller)
}

/// How many fixed-size chunks `size_bytes` takes: `ceil(size / 1 MiB)`.
pub open spec fn chunk_count_of(size_bytes: u64) -> int {
    (size_bytes + CHUNK_SIZE - 1) as int / CHUNK_SIZE as int
}

/// The configuration-derived parts of two directory views agree.
pub open spec fn same_dir_config(a: DirectoryV, b: DirectoryV) -> bool {
    a.id == b.id && a.admins == b.admins && a.rate_per_gb_per_month == b.rate_per_gb_per_month
        && a.secret == b.secret
}

/// The usage record of `u`, defaulting to an empty record with the
/// standard quota.
pub open spec fn user_or_default(users: Seq<(Seq<u8>, UserState)>, u: Seq<u8>) -> UserState {
    match kv_get(users, u) {
        Some(st) => st,
        None => UserState { used_bytes: 0, quota_bytes: DEFAULT_QUOTA_BYTES },
    }
}

/// Addition on timestamps, capped at the largest representable instant.
pub open spec fn sat_add64(a: u64, b: u64) -> u64 {
    if a + b > u64::MAX {
        u64::MAX
    } else {
        (a + b) as u64
    }
}

/// The 16-byte upload id minted at `now` with the given entropy: the time
/// big-endian, then the entropy big-endian.
pub open spec fn minted_id(now: u64, entropy: u64) -> Seq<u8> {
    crate::shared::bytes::u64_be_bytes(now) + crate::shared::bytes::u64_be_bytes(entropy)
}

/// The session `start_upload` opens for these arguments.
pub open spec fn opened_session(
    caller: Seq<u8>,
    name: Seq<char>,
    mime: Seq<char>,
    size_bytes: u64,
    now: u64,
    entropy: u64,
) -> UploadSessionV {
    UploadSessionV {
        upload_id: minted_id(now, entropy),
        file_id: FileIdV { owner: caller, id: minted_id(now, entropy) },
        name,
        mime,
        chunk_size: CHUNK_SIZE,
        expected_size_bytes: size_bytes,
        expected_chunk_count: chunk_count_of(size_bytes) as u32,
        uploaded_chunks: Seq::empty(),
        expires_at_ns: sat_add64(now, UPLOAD_SESSION_TTL_NS),
        reserved_credit: crate::directory::billing::spec_reservation_cost(size_bytes) as u128,
    }
}

/// The metadata `commit_upload` stores for a finished session: the
/// session's identity and geometry, stamped `Ready` now, with empty access
/// lists.
pub open spec fn committed_meta(s: UploadSessionV, now: u64) -> FileMetaV {
    FileMetaV {
        file_id: s.file_id,
        name: s.name,
        mime: s.mime,
        size_bytes: s.expected_size_bytes,
        chunk_size: s.chunk_size,
        chunk_count: s.expected_chunk_count,
        created_at_ns: now,
        updated_at_ns: now,
        status: FileStatus::Ready,
        sha256: None,
        readers: Seq::empty(),
        writers: Seq::empty(),
    }
}

/// The first writable bucket in ascending principal order, if any.
pub open spec fn first_writable(bs: Seq<(Seq<u8>, BucketInfoV)>) -> Option<Seq<u8>>
    decreases bs.len(),
{
    if bs.len() == 0 {
        None
    } else if bs[0].1.writable {
        Some(bs[0].1.id)
    } else {
        first_writable(bs.skip(1))
    }
}

/// The upload token the directory mints for a session: the session's
/// identity and expiry, the chosen bucket, the requested chunks, signed
/// under the shared secret.
pub open spec fn minted_upload_token(
    s: UploadSessionV,
    bucket: Seq<u8>,
    directory: Seq<u8>,
    chunks: Seq<u32>,
    secret: Seq<u8>,
) -> UploadTokenV {
    let base = UploadTokenV {
        upload_id: s.upload_id,
        file_id: s.file_id,
        bucket_id: bucket,
        directory_id: directory,
        expires_at: s.expires_at_ns,
        allowed_chunks: chunks,
        sig: Seq::empty(),
    };
    UploadTokenV { sig: hmac_sha256(secret, upload_token_msg(base)), ..base }
}

/// The download token minted with a plan, signed under the shared secret.
pub open spec fn minted_download_token(
    file_id: FileIdV,
    bucket: Seq<u8>,
    directory: Seq<u8>,
    expires_at: u64,
    secret: Seq<u8>,
) -> DownloadTokenV {
    let base = DownloadTokenV {
        file_id,
        bucket_id: bucket,
        directory_id: directory,
        expires_at,
        sig: Seq::empty(),
    };
    DownloadTokenV { sig: hmac_sha256(secret, download_token_msg(base)), ..base }
}

/// What a download plan promises for a file placed in one bucket: one
/// location per chunk in ascending index order, and one signed token for
/// that bucket.
pub open spec fn plan_ok(
    plan: &DownloadPlan,
    m: FileMetaV,
    bucket: Seq<u8>,
    directory: Seq<u8>,
    expires_at: u64,
    secret: Seq<u8>,
) -> bool {
    &&& plan.chunk_count == m.chunk_count
    &&& plan.chunk_size == m.chunk_size
    &&& plan.locations@.len() == m.chunk_count
    &&& forall|i: int|
        0 <= i < plan.locations@.len() ==> (#[trigger] plan.locations@[i])@.chunk_index == i
            && plan.locations@[i]@.bucket == bucket
    &&& plan.auth@.len() == 1
    &&& (plan.auth@[0])@.bucket_id == bucket
    &&& (plan.auth@[0])@.token == minted_download_token(
        m.file_id,
        bucket,
        directory,
        expires_at,
        secret,
    )
    &&& download_sig_valid((plan.auth@[0])@.token, secret)
}

impl Directory {
    pub open spec fn wf(&self) -> bool {
        dir_inv(self@)
    }

    /// A fresh directory: the given identity and configuration, empty
    /// tables.
    pub fn new(id: Principal, config: Config) -> (r: Directory)
        ensures
            r.wf(),
            r@.id == id@,
            r@.admins == match config.admins {
                Some(a) => a@.map_values(|p: Principal| p@),
                None => Seq::<Seq<u8>>::empty(),
            },
            r@.rate_per_gb_per_month == config.rate_per_gb_per_month,
            r@.secret == match config.shared_secret {
                Some(sec) => sec@,
                None => Seq::<u8>::empty(),
            },
            r@.users == Seq::<(Seq<u8>, UserState)>::empty(),
            r@.files == Seq::<(Seq<u8>, FileMetaV)>::empty(),
            r@.uploads == Seq::<(Seq<u8>, UploadSessionV)>::empty(),
            r@.file_to_bucket == Seq::<(Seq<u8>, PlacementV)>::empty(),
            r@.buckets == Seq::<(Seq<u8>, BucketInfoV)>::empty(),
            r@.links == Seq::<(Seq<u8>, LinkInfoV)>::empty(),
    {
        Directory {
            id,
            config,
            users: Store::new(),
            files: Store::new(),
            uploads: Store::new(),
            file_to_bucket: Store::new(),
            buckets: Store::new(),
            links: Store::new(),
        }
    }

    /// A human-readable pricing notice.
    pub fn get_pricing(&self) -> (r: String)
        ensures
            r@ == "Payment per call; fees follow the payment guard configuration."@,
    {
        String::from_str("Payment per call; fees follow the payment guard configuration.")
    }

    /// The caller's usage record: what is stored, defaulting to an empty
    /// record with the standard quota. An admin may name another user;
    /// anyone else is answered about themselves.
    pub fn get_usage(
        &self,
        caller: &Principal,
        is_controller: bool,
        user: Option<&Principal>,
    ) -> (r: UserState)
        requires
            self.wf(),
        ensures
            ({
                let target = match user {
                    Some(u) => if is_dir_admin(self@, caller@, is_controller) {
                        u@
                    } else {
                        caller@
                    },
                    None => caller@,
                };
                r == match kv_get(self@.users, target) {
                    Some(st) => st,
                    None => UserState { used_bytes: 0, quota_bytes: DEFAULT_QUOTA_BYTES },
                }
            }),
    {
        let target = match user {
            Some(u) => if self.is_admin(caller, is_controller) {
                u
            } else {
                caller
            },
            None => caller,
        };
        let key = target.to_vec();
        match self.users.get(key.as_slice()) {
            Some(st) => *st,
            None => UserState { used_bytes: 0, quota_bytes: DEFAULT_QUOTA_BYTES },
        }
    }

    /// Every stored file the caller owns, in key order.
    pub fn list_files(&self, caller: &Principal) -> (r: Vec<FileMeta>)
        requires
            self.wf(),
        ensures
            r@.map_values(|m: FileMeta| m@) == self@.files.map_values(
                |e: (Seq<u8>, FileMetaV)| e.1,
            ).filter(|m: FileMetaV| m.file_id.owner == caller@),
    {
        let ghost all = self@.files.map_values(|e: (Seq<u8>, FileMetaV)| e.1);
        let ghost pred = |m: FileMetaV| m.file_id.owner == caller@;
        let mut r: Vec<FileMeta> = Vec::new();
        let n = self.files.len();
        proof {
            assert(all.take(0) =~= Seq::<FileMetaV>::empty());
            assert(r@.map_values(|m: FileMeta| m@) =~= all.take(0).filter(pred));
        }
        let mut i: usize = 0;
        while i < n
            invariant
                0 <= i <= n,
                n == self@.files.len(),
                self.wf(),
                all == self@.files.map_values(|e: (Seq<u8>, FileMetaV)| e.1),
                pred == (|m: FileMetaV| m.file_id.owner == caller@),
                r@.map_values(|m: FileMeta| m@) == all.take(i as int).filter(pred),
            decreases n - i,
        {
            let entry = self.files.entry_at(i);
            proof {
                assert(all[i as int] == self@.files[i as int].1);
                assert(all.take(i + 1) =~= all.take(i as int).push(all[i as int]));
                reveal(Seq::filter);
                assert(all.take(i as int).push(all[i as int]).filter(pred) == if pred(
                    all[i as int],
                ) {
                    all.take(i as int).filter(pred).push(all[i as int])
                } else {
                    all.take(i as int).filter(pred)
                }) by {
                    assert(all.take(i as int).push(all[i as int]).drop_last() =~= all.take(
                        i as int,
                    ));
                }
            }
            if crate::shared::bytes::bytes_eq(entry.1.file_id.owner.as_slice(), caller.as_slice())
            {
                r.push(entry.1.clone());
                proof {
                    assert(r@.map_values(|m: FileMeta| m@) =~= all.take(i + 1).filter(pred));
                }
            } else {
                proof {
                    assert(r@.map_values(|m: FileMeta| m@) =~= all.take(i + 1).filter(pred));
                }
            }
            i = i + 1;
        }
        proof {
            assert(all.take(n as int) =~= all);
        }
        r
    }

    /// Opens an upload session: after the payment, the caller's quota is
    /// checked against the default-initialized usage record, a 16-byte
    /// upload id is minted from the time and the entropy, and the session is
    /// recorded with fixed 1 MiB chunks and a one-hour expiry. The minted id
    /// must be fresh in both the session and the file tables.
    pub fn start_upload(
        &mut self,
        caller: &Principal,
        name: String,
        mime: String,
        size_bytes: u64,
        payment: Result<(), String>,
        now: u64,
        entropy: u64,
    ) -> (r: StartUploadResult)
        requires
            old(self).wf(),
        ensures
            final(self).wf(),
            same_dir_config(final(self)@, old(self)@),
            final(self)@.users == old(self)@.users,
            final(self)@.files == old(self)@.files,
            final(self)@.file_to_bucket == old(self)@.file_to_bucket,
            final(self)@.buckets == old(self)@.buckets,
            final(self)@.links == old(self)@.links,
            r is Err ==> final(self)@.uploads == old(self)@.uploads,
            payment matches Err(m) ==> (r matches Err(e) && e matches
                DirectoryError::PaymentFailed(m2) && m2@ == m@),
            ({
                let st = user_or_default(old(self)@.users, caller@);
                let s = opened_session(caller@, name@, mime@, size_bytes, now, entropy);
                &&& (payment is Ok && st.used_bytes + size_bytes > st.quota_bytes) ==> (
                r matches Err(e) && e matches DirectoryError::QuotaExceeded {
                    used,
                    requested,
                    quota,
                } && used == st.used_bytes && requested == size_bytes && quota == st.quota_bytes)
                &&& (payment is Ok && st.used_bytes + size_bytes <= st.quota_bytes) ==> if (
                chunk_count_of(size_bytes) <= u32::MAX && !kv_contains(
                    old(self)@.uploads,
                    s.upload_id,
                ) && !kv_contains(old(self)@.files, file_key(s.file_id))) {
                    &&& r matches Ok(session) && session@ == s
                    &&& kv_get(final(self)@.uploads, s.upload_id) == Some(s)
                    &&& forall|k2: Seq<u8>|
                        k2 != s.upload_id ==> kv_get(final(self)@.uploads, k2) == kv_get(
                            old(self)@.uploads,
                            k2,
                        )
                    &&& final(self)@.uploads.len() == old(self)@.uploads.len() + 1
                } else {
                    r matches Err(e) && e is InvalidRequest
                }
            }),
    {
        if let Err(m) = payment {
            return Err(DirectoryError::PaymentFailed(m));
        }
        let caller_key = caller.to_vec();
        let st = match self.users.get(caller_key.as_slice()) {
            Some(st) => *st,
            None => UserState { used_bytes: 0, quota_bytes: DEFAULT_QUOTA_BYTES },
        };
        if (st.used_bytes as u128) + (size_bytes as u128) > (st.quota_bytes as u128) {
            return Err(DirectoryError::QuotaExceeded {
                used: st.used_bytes,
                requested: size_bytes,
                quota: st.quota_bytes,
            });
        }
        let q = size_bytes / (CHUNK_SIZE as u64);
        let rem = size_bytes % (CHUNK_SIZE as u64);
        let count64 = if rem > 0 {
            q + 1
        } else {
            q
        };
        proof {
            assert(count64 == chunk_count_of(size_bytes)) by (nonlinear_arith)
                requires
                    q == size_bytes as int / 0x100000,
                    rem == size_bytes as int % 0x100000,
                    count64 == q + (if rem > 0 {
                        1int
                    } else {
                        0int
                    }),
            ;
        }
        if count64 > (u32::MAX as u64) {
            return Err(DirectoryError::InvalidRequest(String::from_str("file too large")));
        }
        let expected_chunk_count = count64 as u32;
        let mut id = u64_to_be(now);
        let ent = u64_to_be(entropy);
        id.extend_from_slice(ent.as_slice());
        proof {
            assert(id@ =~= minted_id(now, entropy));
        }
        if self.uploads.get(id.as_slice()).is_some() {
            return Err(DirectoryError::InvalidRequest(String::from_str("upload id collision")));
        }
        let file_id = FileId { owner: caller.clone(), id: id.clone() };
        let fkey = file_key_bytes(&file_id);
        if self.files.get(fkey.as_slice()).is_some() {
            return Err(DirectoryError::InvalidRequest(String::from_str("file id collision")));
        }
        let expires_at_ns = if now > u64::MAX - UPLOAD_SESSION_TTL_NS {
            u64::MAX
        } else {
            now + UPLOAD_SESSION_TTL_NS
        };
        let reserved_credit = crate::directory::billing::calculate_reservation_cost(size_bytes);
        let session = UploadSession {
            upload_id: id.clone(),
            file_id,
            name,
            mime,
            chunk_size: CHUNK_SIZE,
            expected_size_bytes: size_bytes,
            expected_chunk_count,
            uploaded_chunks: Vec::new(),
            expires_at_ns,
            reserved_credit,
        };
        let ghost s = session@;
        let ghost d0 = self@;
        let result = session.clone();
        self.uploads.insert(id, session);
        proof {
            let d1 = self@;
            assert(s == opened_session(caller@, name@, mime@, size_bytes, now, entropy));
            let e = (s.upload_id, s);
            let p = choose|p: int|
                0 <= p <= d0.uploads.len() && d1.uploads == d0.uploads.insert(p, e);
            assert forall|i: int| 0 <= i < d1.uploads.len() implies session_row_ok(
                #[trigger] d1.uploads[i],
            ) && !kv_contains(d1.files, file_key(d1.uploads[i].1.file_id)) by {
                if i < p {
                    assert(d1.uploads[i] == d0.uploads[i]);
                } else if i == p {
                    assert(d1.uploads[i] == e);
                } else {
                    assert(d1.uploads[i] == d0.uploads[i - 1]);
                }
            }
            assert(dir_inv(d1));
        }
        Ok(result)
    }

    /// Marks one chunk of an open session as uploaded. Idempotent: a
    /// duplicate index is not an error, and an index at or past the expected
    /// count is ignored, so a session only ever records distinct in-range
    /// indices.
    pub fn report_chunk_uploaded(&mut self, upload_id: &Vec<u8>, chunk_index: u32) -> (r:
        ReportChunkUploadedResult)
        requires
            old(self).wf(),
        ensures
            final(self).wf(),
            same_dir_config(final(self)@, old(self)@),
            final(self)@.users == old(self)@.users,
            final(self)@.files == old(self)@.files,
            final(self)@.file_to_bucket == old(self)@.file_to_bucket,
            final(self)@.buckets == old(self)@.buckets,
            final(self)@.links == old(self)@.links,
            match kv_get(old(self)@.uploads, upload_id@) {
                None => r matches Err(e) && e is UploadSessionNotFound && final(self)@.uploads
                    == old(self)@.uploads,
                Some(s) => {
                    let s2 = UploadSessionV {
                        uploaded_chunks: if chunk_index < s.expected_chunk_count
                            && !s.uploaded_chunks.contains(chunk_index) {
                            s.uploaded_chunks.push(chunk_index)
                        } else {
                            s.uploaded_chunks
                        },
                        ..s
                    };
                    &&& r is Ok
                    &&& kv_get(final(self)@.uploads, upload_id@) == Some(s2)
                    &&& forall|k2: Seq<u8>|
                        k2 != upload_id@ ==> kv_get(final(self)@.uploads, k2) == kv_get(
                            old(self)@.uploads,
                            k2,
                        )
                },
            },
    {
        let ghost d0 = self@;
        let session: UploadSession = match self.uploads.get(upload_id.as_slice()) {
            Some(s) => s.clone(),
            None => {
                return Err(DirectoryError::UploadSessionNotFound);
            },
        };
        let mut session = session;
        let ghost s = session@;
        if chunk_index < session.expected_chunk_count && !crate::bucket::api::contains_index(
            &session.uploaded_chunks,
            chunk_index,
        ) {
            session.uploaded_chunks.push(chunk_index);
        }
        let ghost s2 = session@;
        let key = upload_id.clone();
        self.uploads.insert(key, session);
        proof {
            let d1 = self@;
            assert(kv_contains(d0.uploads, upload_id@));
            let i = kv_idx(d0.uploads, upload_id@);
            assert(0 <= i < d0.uploads.len() && d0.uploads[i].0 == upload_id@);
            lemma_kv_get_at(d0.uploads, i);
            assert(d1.uploads == d0.uploads.update(i, (upload_id@, s2)));
            assert(session_row_ok(d0.uploads[i]));
            assert(session_row_ok((upload_id@, s2))) by {
                if s2.uploaded_chunks != s.uploaded_chunks {
                    assert(s2.uploaded_chunks == s.uploaded_chunks.push(chunk_index));
                    assert(forall|a: int|
                        0 <= a < s.uploaded_chunks.len() ==> s2.uploaded_chunks[a] == (
                        #[trigger] s.uploaded_chunks[a]));
                    assert(s2.uploaded_chunks[s.uploaded_chunks.len() as int] == chunk_index);
                }
            }
            assert forall|j: int| 0 <= j < d1.uploads.len() implies session_row_ok(
                #[trigger] d1.uploads[j],
            ) && !kv_contains(d1.files, file_key(d1.uploads[j].1.file_id)) by {
                if j != i {
                    assert(d1.uploads[j] == d0.uploads[j]);
                } else {
                    assert(d1.uploads[j] == (upload_id@, s2));
                    assert(file_key(s2.file_id) == file_key(d0.uploads[i].1.file_id));
                }
            }
            assert(dir_inv(d1));
        }
        Ok(())
    }

    /// Drops an open session without creating a file; only the session's
    /// owner may abort. Chunks already stored in the bucket stay until
    /// garbage collection reclaims them.
    pub fn abort_upload(&mut self, caller: &Principal, upload_id: &Vec<u8>) -> (r:
        AbortUploadResult)
        requires
            old(self).wf(),
        ensures
            final(self).wf(),
            same_dir_config(final(self)@, old(self)@),
            final(self)@.users == old(self)@.users,
            final(self)@.files == old(self)@.files,
            final(self)@.file_to_bucket == old(self)@.file_to_bucket,
            final(self)@.buckets == old(self)@.buckets,
            final(self)@.links == old(self)@.links,
            match kv_get(old(self)@.uploads, upload_id@) {
                None => r matches Err(e) && e is UploadSessionNotFound && final(self)@.uploads
                    == old(self)@.uploads,
                Some(s) => {
                    if s.file_id.owner != caller@ {
                        r matches Err(e) && e is Unauthorized && final(self)@.uploads == old(
                            self,
                        )@.uploads
                    } else {
                        &&& r is Ok
                        &&& !kv_contains(final(self)@.uploads, upload_id@)
                        &&& forall|k2: Seq<u8>|
                            k2 != upload_id@ ==> kv_get(final(self)@.uploads, k2) == kv_get(
                                old(self)@.uploads,
                                k2,
                            )
                    }
                },
            },
    {
        let ghost d0 = self@;
        let owner_ok: bool = match self.uploads.get(upload_id.as_slice()) {
            Some(s) => crate::shared::bytes::bytes_eq(
                s.file_id.owner.as_slice(),
                caller.as_slice(),
            ),
            None => {
                return Err(DirectoryError::UploadSessionNotFound);
            },
        };
        if !owner_ok {
            return Err(DirectoryError::Unauthorized);
        }
        let _ = self.uploads.remove(upload_id.as_slice());
        proof {
            let d1 = self@;
            let i = kv_idx(d0.uploads, upload_id@);
            lemma_kv_get_at(d0.uploads, i);
            assert(d1.uploads == d0.uploads.remove(i));
            assert forall|j: int| 0 <= j < d1.uploads.len() implies session_row_ok(
                #[trigger] d1.uploads[j],
            ) && !kv_contains(d1.files, file_key(d1.uploads[j].1.file_id)) by {
                if j < i {
                    assert(d1.uploads[j] == d0.uploads[j]);
                } else {
                    assert(d1.uploads[j] == d0.uploads[j + 1]);
                }
            }
            assert(dir_inv(d1));
        }
        Ok(())
    }

    /// Commits a finished session atomically: the session row disappears,
    /// the owner's `used_bytes` grows by the session's size, and a `Ready`
    /// file row appears — all three or, on any error, none.
    pub fn commit_upload(&mut self, upload_id: &Vec<u8>, now: u64) -> (r: CommitUploadResult)
        requires
            old(self).wf(),
        ensures
            final(self).wf(),
            same_dir_config(final(self)@, old(self)@),
            final(self)@.file_to_bucket == old(self)@.file_to_bucket,
            final(self)@.buckets == old(self)@.buckets,
            final(self)@.links == old(self)@.links,
            r is Err ==> final(self)@.uploads == old(self)@.uploads && final(self)@.files == old(
                self,
            )@.files && final(self)@.users == old(self)@.users,
            match kv_get(old(self)@.uploads, upload_id@) {
                None => r matches Err(e) && e is UploadSessionNotFound,
                Some(s) => {
                    let st = user_or_default(old(self)@.users, s.file_id.owner);
                    if s.uploaded_chunks.len() < s.expected_chunk_count {
                        r matches Err(e) && e matches DirectoryError::UploadIncomplete {
                            uploaded,
                            expected,
                        } && uploaded == s.uploaded_chunks.len() && expected
                            == s.expected_chunk_count
                    } else if st.used_bytes + s.expected_size_bytes > u64::MAX {
                        r matches Err(e) && e matches DirectoryError::QuotaExceeded { .. }
                    } else {
                        &&& r matches Ok(meta) && meta@ == committed_meta(s, now)
                        &&& !kv_contains(final(self)@.uploads, upload_id@)
                        &&& forall|k2: Seq<u8>|
                            k2 != upload_id@ ==> kv_get(final(self)@.uploads, k2) == kv_get(
                                old(self)@.uploads,
                                k2,
                            )
                        &&& kv_get(final(self)@.files, file_key(s.file_id)) == Some(
                            committed_meta(s, now),
                        )
                        &&& forall|k2: Seq<u8>|
                            k2 != file_key(s.file_id) ==> kv_get(final(self)@.files, k2) == kv_get(
                                old(self)@.files,
                                k2,
                            )
                        &&& kv_get(final(self)@.users, s.file_id.owner) == Some(
                            UserState {
                                used_bytes: (st.used_bytes + s.expected_size_bytes) as u64,
                                quota_bytes: st.quota_bytes,
                            },
                        )
                        &&& forall|k2: Seq<u8>|
                            k2 != s.file_id.owner ==> kv_get(final(self)@.users, k2) == kv_get(
                                old(self)@.users,
                                k2,
                            )
                    }
                },
            },
    {
        let ghost d0 = self@;
        let session: UploadSession = match self.uploads.get(upload_id.as_slice()) {
            Some(s) => s.clone(),
            None => {
                return Err(DirectoryError::UploadSessionNotFound);
            },
        };
        let ghost s = session@;
        if session.uploaded_chunks.len() < session.expected_chunk_count as usize {
            return Err(DirectoryError::UploadIncomplete {
                uploaded: session.uploaded_chunks.len() as u32,
                expected: session.expected_chunk_count,
            });
        }
        let owner_key = session.file_id.owner.to_vec();
        let st = match self.users.get(owner_key.as_slice()) {
            Some(st) => *st,
            None => UserState { used_bytes: 0, quota_bytes: DEFAULT_QUOTA_BYTES },
        };
        let new_used = match st.used_bytes.checked_add(session.expected_size_bytes) {
            Some(n) => n,
            None => {
                return Err(DirectoryError::QuotaExceeded {
                    used: st.used_bytes,
                    requested: session.expected_size_bytes,
                    quota: st.quota_bytes,
                });
            },
        };
        // All checks passed: from here to the end every table update happens.
        let _ = self.uploads.remove(upload_id.as_slice());
        let ghost d_after_remove = self@;
        proof {
            let i = kv_idx(d0.uploads, upload_id@);
            lemma_kv_get_at(d0.uploads, i);
            assert(d_after_remove.uploads == d0.uploads.remove(i));
            assert forall|j: int| 0 <= j < d_after_remove.uploads.len() implies session_row_ok(
                #[trigger] d_after_remove.uploads[j],
            ) && !kv_contains(
                d_after_remove.files,
                file_key(d_after_remove.uploads[j].1.file_id),
            ) by {
                if j < i {
                    assert(d_after_remove.uploads[j] == d0.uploads[j]);
                } else {
                    assert(d_after_remove.uploads[j] == d0.uploads[j + 1]);
                }
            }
        }
        self.users.insert(
            owner_key,
            UserState { used_bytes: new_used, quota_bytes: st.quota_bytes },
        );
        let ghost d_after_users = self@;
        let meta = FileMeta {
            file_id: session.file_id,
            name: session.name,
            mime: session.mime,
            size_bytes: session.expected_size_bytes,
            chunk_size: session.chunk_size,
            chunk_count: session.expected_chunk_count,
            created_at_ns: now,
            updated_at_ns: now,
            status: FileStatus::Ready,
            sha256: None,
            readers: Vec::new(),
            writers: Vec::new(),
        };
        proof {
            assert(meta@ == committed_meta(s, now)) by {
                assert(meta@.readers =~= Seq::<Seq<u8>>::empty());
                assert(meta@.writers =~= Seq::<Seq<u8>>::empty());
            }
        }
        let fkey = file_key_bytes(&meta.file_id);
        let result = meta.clone();
        self.files.insert(fkey, meta);
        proof {
            let d1 = self@;
            let owner = s.file_id.owner;
            let fk = file_key(s.file_id);
            // The session table kept its rows; the file table gained a fresh
            // row whose key no session references.
            assert(!kv_contains(d_after_users.files, fk)) by {
                let i = kv_idx(d0.uploads, upload_id@);
                lemma_kv_get_at(d0.uploads, i);
            }
            let p = choose|p: int|
                0 <= p <= d_after_users.files.len() && d1.files == d_after_users.files.insert(
                    p,
                    (fk, committed_meta(s, now)),
                );
            let e = (fk, committed_meta(s, now));
            // Every file row is still keyed by its identity.
            assert forall|j: int| 0 <= j < d1.files.len() implies file_row_ok(
                #[trigger] d1.files[j],
            ) && kv_contains(d1.users, d1.files[j].1.file_id.owner) by {
                if j < p {
                    assert(d1.files[j] == d0.files[j]);
                    assert(kv_contains(d0.users, d0.files[j].1.file_id.owner));
                    assert(kv_get(d1.users, d0.files[j].1.file_id.owner) == if d0.files[j].1.file_id.owner
                        == owner {
                        Some(
                            UserState {
                                used_bytes: new_used,
                                quota_bytes: st.quota_bytes,
                            },
                        )
                    } else {
                        kv_get(d0.users, d0.files[j].1.file_id.owner)
                    });
                } else if j == p {
                    assert(d1.files[j] == e);
                    assert(kv_get(d1.users, owner) == Some(
                        UserState { used_bytes: new_used, quota_bytes: st.quota_bytes },
                    ));
                } else {
                    assert(d1.files[j] == d0.files[j - 1]);
                    assert(kv_contains(d0.users, d0.files[j - 1].1.file_id.owner));
                    assert(kv_get(d1.users, d0.files[j - 1].1.file_id.owner) == if d0.files[j
                        - 1].1.file_id.owner == owner {
                        Some(
                            UserState {
                                used_bytes: new_used,
                                quota_bytes: st.quota_bytes,
                            },
                        )
                    } else {
                        kv_get(d0.users, d0.files[j - 1].1.file_id.owner)
                    });
                }
            }
            // No remaining session references the new file row: distinct
            // sessions carry distinct 16-byte ids, and the key encoding is
            // injective.
            assert forall|j: int| 0 <= j < d1.uploads.len() implies !kv_contains(
                d1.files,
                file_key((#[trigger] d1.uploads[j]).1.file_id),
            ) by {
                assert(d1.uploads == d_after_remove.uploads);
                assert(session_row_ok(d1.uploads[j]));
                let sj = d1.uploads[j].1;
                assert(!kv_contains(d0.files, file_key(sj.file_id)));
                if file_key(sj.file_id) == fk {
                    lemma_file_key_inj(sj.file_id, s.file_id);
                    let i = kv_idx(d0.uploads, upload_id@);
                    lemma_kv_get_at(d0.uploads, i);
                    assert(session_row_ok(d0.uploads[i]));
                    // Two distinct rows of the old session table would then
                    // share the upload id, impossible in a sorted table.
                    let jj = if j < i {
                        j
                    } else {
                        j + 1
                    };
                    assert(d0.uploads[jj] == d1.uploads[j]);
                    lemma_kv_unique(d0.uploads);
                    assert(false);
                } else {
                    assert forall|m: int| 0 <= m < d1.files.len() implies (
                    #[trigger] d1.files[m]).0 != file_key(sj.file_id) by {
                        if m < p {
                            assert(d1.files[m] == d_after_users.files[m]);
                        } else if m == p {
                        } else {
                            assert(d1.files[m] == d_after_users.files[m - 1]);
                        }
                        if d1.files[m].0 == file_key(sj.file_id) {
                            assert(kv_contains(d0.files, file_key(sj.file_id)));
                        }
                    }
                }
            }
            // Quota conservation: the owner's sum grew by exactly the
            // committed size, everyone else's sum is untouched.
            assert forall|j: int| 0 <= j < d1.users.len() implies (
            #[trigger] d1.users[j]).1.used_bytes == owned_bytes(d1.files, d1.users[j].0) by {
                let u = d1.users[j].0;
                let f = |en: (Seq<u8>, FileMetaV)|
                    if en.1.file_id.owner == u {
                        en.1.size_bytes as int
                    } else {
                        0
                    };
                lemma_kv_sum_insert(d_after_users.files, p, e, f);
                assert(owned_bytes(d1.files, u) == owned_bytes(d0.files, u) + f(e));
                lemma_quota_conservation(d0, u);
                if u == owner {
                    assert(kv_get(d1.users, u) == Some(
                        UserState { used_bytes: new_used, quota_bytes: st.quota_bytes },
                    ));
                    lemma_kv_get_at(d1.users, j);
                    assert(d1.users[j].1.used_bytes == new_used);
                    assert(owned_bytes(d0.files, u) == st.used_bytes);
                } else {
                    assert(f(e) == 0);
                    assert(kv_get(d1.users, u) == kv_get(d0.users, u));
                    lemma_kv_get_at(d1.users, j);
                    assert(kv_get(d0.users, u) == Some(d1.users[j].1));
                }
            }
            assert(dir_inv(d1));
        }
        Ok(result)
    }

    /// Whether the caller may perform admin actions here.
    pub fn is_admin(&self, caller: &Principal, is_controller: bool) -> (r: bool)
        ensures
            r == is_dir_admin(self@, caller@, is_controller),
    {
        if is_controller {
            return true;
        }
        match &self.config.admins {
            Some(admins) => crate::bucket::api::contains_principal(admins, caller),
            None => false,
        }
    }

    /// The effective shared secret.
    fn secret_bytes(&self) -> (r: Vec<u8>)
        ensures
            r@ == self@.secret,
    {
        match &self.config.shared_secret {
            Some(s) => s.clone(),
            None => {
                let r: Vec<u8> = Vec::new();
                proof {
                    assert(r@ =~= Seq::<u8>::empty());
                }
                r
            },
        }
    }

    /// The first writable bucket in ascending principal order.
    fn first_writable_bucket(&self) -> (r: Option<Principal>)
        ensures
            match r {
                Some(b) => first_writable(self@.buckets) == Some(b@),
                None => first_writable(self@.buckets) is None,
            },
    {
        let n = self.buckets.len();
        let mut i: usize = 0;
        proof {
            assert(self@.buckets.skip(0) =~= self@.buckets);
        }
        while i < n
            invariant
                0 <= i <= n,
                n == self@.buckets.len(),
                first_writable(self@.buckets) == first_writable(self@.buckets.skip(i as int)),
            decreases n - i,
        {
            let entry = self.buckets.entry_at(i);
            proof {
                assert(self@.buckets.skip(i as int)[0] == self@.buckets[i as int]);
                assert(self@.buckets.skip(i as int).skip(1) =~= self@.buckets.skip(i + 1));
            }
            if entry.1.writable {
                return Some(entry.1.id.clone());
            }
            i = i + 1;
        }
        None
    }

    /// The stored metadata of the file, to a caller the access lists allow.
    pub fn get_file_meta(&self, caller: &Principal, file_id: &FileId) -> (r: GetFileMetaResult)
        requires
            self.wf(),
        ensures
            match kv_get(self@.files, file_key(file_id@)) {
                None => r matches Err(e) && e is FileNotFound,
                Some(m) => if can_read(m, caller@) {
                    r matches Ok(meta) && meta@ == m
                } else {
                    r matches Err(e) && e is Unauthorized
                },
            },
    {
        let fkey = file_key_bytes(file_id);
        match self.files.get(fkey.as_slice()) {
            None => Err(DirectoryError::FileNotFound),
            Some(meta) => {
                if can_read_meta(meta, caller) {
                    Ok(meta.clone())
                } else {
                    Err(DirectoryError::Unauthorized)
                }
            },
        }
    }

    /// Builds the plan for a file placed in `bucket`: one location per
    /// chunk, and one download token for the bucket, expiring at
    /// `expires_at`.
    fn build_plan(&self, meta: &FileMeta, bucket: &Principal, expires_at: u64) -> (r: DownloadPlan)
        ensures
            plan_ok(&r, meta@, bucket@, self@.id, expires_at, self@.secret),
    {
        let mut locations: Vec<ChunkLocation> = Vec::new();
        let count = meta.chunk_count;
        let mut i: u32 = 0;
        while i < count
            invariant
                0 <= i <= count,
                locations@.len() == i,
                forall|j: int|
                    0 <= j < i ==> (#[trigger] locations@[j])@.chunk_index == j
                        && locations@[j]@.bucket == bucket@,
            decreases count - i,
        {
            locations.push(ChunkLocation { chunk_index: i, bucket: bucket.clone() });
            i = i + 1;
        }
        let mut token = DownloadToken {
            file_id: meta.file_id.clone(),
            bucket_id: bucket.clone(),
            directory_id: self.id.clone(),
            expires_at,
            sig: Vec::new(),
        };
        let secret = self.secret_bytes();
        proof {
            assert(token@.sig =~= Seq::<u8>::empty());
        }
        sign_download_token(&mut token, secret.as_slice());
        let mut auth: Vec<DownloadAuth> = Vec::new();
        auth.push(DownloadAuth { bucket_id: bucket.clone(), token });
        DownloadPlan { chunk_count: count, chunk_size: meta.chunk_size, locations, auth }
    }

    /// The download plan of a `Ready` file the caller may read: where each
    /// chunk lives, with a signed download token valid for an hour.
    pub fn get_download_plan(&self, caller: &Principal, file_id: &FileId, now: u64) -> (r:
        GetDownloadPlanResult)
        requires
            self.wf(),
        ensures
            match kv_get(self@.files, file_key(file_id@)) {
                None => r matches Err(e) && e is FileNotFound,
                Some(m) => if !can_read(m, caller@) {
                    r matches Err(e) && e is Unauthorized
                } else if !(m.status is Ready) {
                    r matches Err(e) && e is FileNotFound
                } else {
                    match kv_get(self@.file_to_bucket, file_key(file_id@)) {
                        None => r matches Err(e) && e is InvalidRequest,
                        Some(pl) => r matches Ok(plan) && plan_ok(
                            &plan,
                            m,
                            pl.bucket,
                            self@.id,
                            sat_add64(now, DOWNLOAD_TOKEN_TTL_NS),
                            self@.secret,
                        ),
                    }
                },
            },
    {
        let fkey = file_key_bytes(file_id);
        let meta: FileMeta = match self.files.get(fkey.as_slice()) {
            None => {
                return Err(DirectoryError::FileNotFound);
            },
            Some(m) => m.clone(),
        };
        if !can_read_meta(&meta, caller) {
            return Err(DirectoryError::Unauthorized);
        }
        match meta.status {
            FileStatus::Ready => {},
            _ => {
                return Err(DirectoryError::FileNotFound);
            },
        }
        let bucket: Principal = match self.file_to_bucket.get(fkey.as_slice()) {
            None => {
                return Err(DirectoryError::InvalidRequest(String::from_str(
                    "no bucket assigned for this file",
                )));
            },
            Some(pl) => pl.bucket.clone(),
        };
        let expires_at = if now > u64::MAX - DOWNLOAD_TOKEN_TTL_NS {
            u64::MAX
        } else {
            now + DOWNLOAD_TOKEN_TTL_NS
        };
        Ok(self.build_plan(&meta, &bucket, expires_at))
    }

    /// Mints one signed upload token covering the requested chunks. The
    /// caller must own the session. The file's placement is decided here —
    /// the first writable bucket in ascending principal order — and once
    /// recorded it never changes: repeated calls reuse it.
    pub fn get_upload_tokens(&mut self, caller: &Principal, upload_id: &Vec<u8>, chunks: Vec<
        u32,
    >) -> (r: GetUploadTokensResult)
        requires
            old(self).wf(),
        ensures
            final(self).wf(),
            same_dir_config(final(self)@, old(self)@),
            final(self)@.users == old(self)@.users,
            final(self)@.files == old(self)@.files,
            final(self)@.uploads == old(self)@.uploads,
            final(self)@.buckets == old(self)@.buckets,
            final(self)@.links == old(self)@.links,
            r is Err ==> final(self)@.file_to_bucket == old(self)@.file_to_bucket,
            match kv_get(old(self)@.uploads, upload_id@) {
                None => r matches Err(e) && e is UploadSessionNotFound,
                Some(s) => {
                    let chosen = match kv_get(old(self)@.file_to_bucket, file_key(s.file_id)) {
                        Some(pl) => Some(pl.bucket),
                        None => first_writable(old(self)@.buckets),
                    };
                    if s.file_id.owner != caller@ {
                        r matches Err(e) && e is Unauthorized
                    } else {
                        match chosen {
                            None => r matches Err(e) && e is NoWritableBuckets,
                            Some(b) => {
                                &&& (r matches Ok(v) && v@.len() == 1 && (v@[0])@
                                    == minted_upload_token(
                                    s,
                                    b,
                                    old(self)@.id,
                                    chunks@,
                                    old(self)@.secret,
                                ) && upload_sig_valid((v@[0])@, old(self)@.secret))
                                &&& kv_get(final(self)@.file_to_bucket, file_key(s.file_id))
                                    == Some(PlacementV { file_id: s.file_id, bucket: b })
                                &&& forall|k2: Seq<u8>|
                                    k2 != file_key(s.file_id) ==> kv_get(
                                        final(self)@.file_to_bucket,
                                        k2,
                                    ) == kv_get(old(self)@.file_to_bucket, k2)
                            },
                        }
                    }
                },
            },
    {
        let ghost d0 = self@;
        let session: UploadSession = match self.uploads.get(upload_id.as_slice()) {
            Some(s) => s.clone(),
            None => {
                return Err(DirectoryError::UploadSessionNotFound);
            },
        };
        let ghost s = session@;
        if !crate::shared::bytes::bytes_eq(session.file_id.owner.as_slice(), caller.as_slice()) {
            return Err(DirectoryError::Unauthorized);
        }
        let fkey = file_key_bytes(&session.file_id);
        let existing: Option<Principal> = match self.file_to_bucket.get(fkey.as_slice()) {
            Some(pl) => Some(pl.bucket.clone()),
            None => None,
        };
        let bucket_id: Principal = match existing {
            Some(b) => {
                proof {
                    // The recorded placement names this very file: the key
                    // encoding is injective.
                    let pl = kv_get(d0.file_to_bucket, file_key(s.file_id)).unwrap();
                    let i = kv_idx(d0.file_to_bucket, file_key(s.file_id));
                    lemma_kv_get_at(d0.file_to_bucket, i);
                    let j = kv_idx(d0.uploads, upload_id@);
                    lemma_kv_get_at(d0.uploads, j);
                    assert(session_row_ok(d0.uploads[j]));
                    lemma_file_key_inj(pl.file_id, s.file_id);
                }
                b
            },
            None => {
                let picked = match self.first_writable_bucket() {
                    Some(b) => b,
                    None => {
                        return Err(DirectoryError::NoWritableBuckets);
                    },
                };
                let placement = Placement {
                    file_id: session.file_id.clone(),
                    bucket: picked.clone(),
                };
                self.file_to_bucket.insert(fkey.clone(), placement);
                proof {
                    let d1 = self@;
                    let j = kv_idx(d0.uploads, upload_id@);
                    lemma_kv_get_at(d0.uploads, j);
                    assert(session_row_ok(d0.uploads[j]));
                    let e = (file_key(s.file_id), PlacementV { file_id: s.file_id, bucket: picked@ });
                    if kv_contains(d0.file_to_bucket, file_key(s.file_id)) {
                        let i = kv_idx(d0.file_to_bucket, file_key(s.file_id));
                        assert(d1.file_to_bucket == d0.file_to_bucket.update(i, e));
                        assert forall|m: int| 0 <= m < d1.file_to_bucket.len() implies (
                        #[trigger] d1.file_to_bucket[m]).0 == file_key(
                            d1.file_to_bucket[m].1.file_id,
                        ) && d1.file_to_bucket[m].1.file_id.owner.len() <= MAX_PRINCIPAL_LEN
                            && d1.file_to_bucket[m].1.file_id.id.len() == FILE_ID_LEN by {
                            if m != i {
                                assert(d1.file_to_bucket[m] == d0.file_to_bucket[m]);
                            }
                        }
                    } else {
                        let p = choose|p: int|
                            0 <= p <= d0.file_to_bucket.len() && d1.file_to_bucket
                                == d0.file_to_bucket.insert(p, e);
                        assert forall|m: int| 0 <= m < d1.file_to_bucket.len() implies (
                        #[trigger] d1.file_to_bucket[m]).0 == file_key(
                            d1.file_to_bucket[m].1.file_id,
                        ) && d1.file_to_bucket[m].1.file_id.owner.len() <= MAX_PRINCIPAL_LEN
                            && d1.file_to_bucket[m].1.file_id.id.len() == FILE_ID_LEN by {
                            if m < p {
                                assert(d1.file_to_bucket[m] == d0.file_to_bucket[m]);
                            } else if m > p {
                                assert(d1.file_to_bucket[m] == d0.file_to_bucket[m - 1]);
                            }
                        }
                    }
                    assert(dir_inv(d1));
                }
                picked
            },
        };
        let mut token = UploadToken {
            upload_id: session.upload_id.clone(),
            file_id: session.file_id.clone(),
            bucket_id,
            directory_id: self.id.clone(),
            expires_at: session.expires_at_ns,
            allowed_chunks: chunks,
            sig: Vec::new(),
        };
        let secret = self.secret_bytes();
        proof {
            assert(token@.sig =~= Seq::<u8>::empty());
        }
        sign_token(&mut token, secret.as_slice());
        let mut tokens: Vec<UploadToken> = Vec::new();
        tokens.push(token);
        Ok(tokens)
    }

    /// Deletes a file the caller owns or may write: the metadata row
    /// disappears and the owner's `used_bytes` falls by exactly the file's
    /// size. The second component names the bucket to instruct; the
    /// recorded placement stays until garbage collection confirms the
    /// bucket is clear.
    pub fn delete_file(&mut self, caller: &Principal, file_id: &FileId) -> (r: (
        DeleteFileResult,
        Option<Principal>,
    ))
        requires
            old(self).wf(),
        ensures
            final(self).wf(),
            same_dir_config(final(self)@, old(self)@),
            final(self)@.uploads == old(self)@.uploads,
            final(self)@.buckets == old(self)@.buckets,
            final(self)@.file_to_bucket == old(self)@.file_to_bucket,
            final(self)@.links == old(self)@.links,
            r.0 is Err ==> final(self)@.files == old(self)@.files && final(self)@.users == old(
                self,
            )@.users && r.1 is None,
            match kv_get(old(self)@.files, file_key(file_id@)) {
                None => r.0 matches Err(e) && e is FileNotFound,
                Some(m) => if !can_write(m, caller@) {
                    r.0 matches Err(e) && e is Unauthorized
                } else {
                    let st = user_or_default(old(self)@.users, m.file_id.owner);
                    &&& r.0 is Ok
                    &&& !kv_contains(final(self)@.files, file_key(file_id@))
                    &&& forall|k2: Seq<u8>|
                        k2 != file_key(file_id@) ==> kv_get(final(self)@.files, k2) == kv_get(
                            old(self)@.files,
                            k2,
                        )
                    &&& kv_get(final(self)@.users, m.file_id.owner) == Some(
                        UserState {
                            used_bytes: (st.used_bytes - m.size_bytes) as u64,
                            quota_bytes: st.quota_bytes,
                        },
                    )
                    &&& forall|k2: Seq<u8>|
                        k2 != m.file_id.owner ==> kv_get(final(self)@.users, k2) == kv_get(
                            old(self)@.users,
                            k2,
                        )
                    &&& match kv_get(old(self)@.file_to_bucket, file_key(file_id@)) {
                        Some(pl) => r.1 matches Some(b) && b@ == pl.bucket,
                        None => r.1 is None,
                    }
                },
            },
    {
        let ghost d0 = self@;
        let fkey = file_key_bytes(file_id);
        let meta: FileMeta = match self.files.get(fkey.as_slice()) {
            None => {
                return (Err(DirectoryError::FileNotFound), None);
            },
            Some(m) => m.clone(),
        };
        let ghost m = meta@;
        if !can_write_meta(&meta, caller) {
            return (Err(DirectoryError::Unauthorized), None);
        }
        let ghost fi = kv_idx(d0.files, file_key(file_id@));
        proof {
            lemma_kv_get_at(d0.files, fi);
            assert(file_row_ok(d0.files[fi]));
        }
        let _ = self.files.remove(fkey.as_slice());
        let ghost d_after_files = self@;
        let owner_key = meta.file_id.owner.to_vec();
        let st = match self.users.get(owner_key.as_slice()) {
            Some(st) => *st,
            None => UserState { used_bytes: 0, quota_bytes: DEFAULT_QUOTA_BYTES },
        };
        proof {
            // The file's owner has a user row whose `used_bytes` covers this
            // file's size, by quota conservation.
            assert(kv_contains(d0.users, m.file_id.owner));
            lemma_quota_conservation(d0, m.file_id.owner);
            let f = |en: (Seq<u8>, FileMetaV)|
                if en.1.file_id.owner == m.file_id.owner {
                    en.1.size_bytes as int
                } else {
                    0
                };
            assert forall|j: int| 0 <= j < d0.files.len() implies f(#[trigger] d0.files[j])
                >= 0 by {}
            crate::store::lemma_kv_sum_bound(d0.files, fi, f);
            assert(f(d0.files[fi]) == m.size_bytes as int);
            assert(st.used_bytes >= m.size_bytes);
        }
        let new_used = if st.used_bytes >= meta.size_bytes {
            st.used_bytes - meta.size_bytes
        } else {
            0
        };
        self.users.insert(
            owner_key,
            UserState { used_bytes: new_used, quota_bytes: st.quota_bytes },
        );
        let bucket: Option<Principal> = match self.file_to_bucket.get(fkey.as_slice()) {
            Some(pl) => Some(pl.bucket.clone()),
            None => None,
        };
        proof {
            let d1 = self@;
            let owner = m.file_id.owner;
            assert(d_after_files.files == d0.files.remove(fi));
            // File rows kept their shape and their owners' user rows.
            assert forall|j: int| 0 <= j < d1.files.len() implies file_row_ok(
                #[trigger] d1.files[j],
            ) && kv_contains(d1.users, d1.files[j].1.file_id.owner) by {
                let jj = if j < fi {
                    j
                } else {
                    j + 1
                };
                assert(d1.files[j] == d0.files[jj]);
                assert(kv_contains(d0.users, d0.files[jj].1.file_id.owner));
                assert(kv_get(d1.users, d0.files[jj].1.file_id.owner) == if d0.files[jj].1.file_id.owner
                    == owner {
                    Some(UserState { used_bytes: new_used, quota_bytes: st.quota_bytes })
                } else {
                    kv_get(d0.users, d0.files[jj].1.file_id.owner)
                });
            }
            // Sessions still reference no stored file: the table only shrank.
            assert forall|j: int| 0 <= j < d1.uploads.len() implies !kv_contains(
                d1.files,
                file_key((#[trigger] d1.uploads[j]).1.file_id),
            ) by {
                let sj = d1.uploads[j].1;
                assert(!kv_contains(d0.files, file_key(sj.file_id)));
                if file_key(sj.file_id) != file_key(file_id@) {
                    assert(kv_get(d1.files, file_key(sj.file_id)) == kv_get(
                        d0.files,
                        file_key(sj.file_id),
                    ));
                }
            }
            // Quota conservation: the owner's sum fell by exactly the file's
            // size, everyone else's sum is untouched.
            assert forall|j: int| 0 <= j < d1.users.len() implies (
            #[trigger] d1.users[j]).1.used_bytes == owned_bytes(d1.files, d1.users[j].0) by {
                let u = d1.users[j].0;
                let f = |en: (Seq<u8>, FileMetaV)|
                    if en.1.file_id.owner == u {
                        en.1.size_bytes as int
                    } else {
                        0
                    };
                lemma_kv_sum_remove(d0.files, fi, f);
                assert(owned_bytes(d1.files, u) == owned_bytes(d0.files, u) - f(d0.files[fi]));
                lemma_quota_conservation(d0, u);
                lemma_kv_get_at(d1.users, j);
                if u == owner {
                    assert(kv_get(d1.users, u) == Some(
                        UserState { used_bytes: new_used, quota_bytes: st.quota_bytes },
                    ));
                } else {
                    assert(f(d0.files[fi]) == 0);
                    assert(kv_get(d1.users, u) == kv_get(d0.users, u));
                }
            }
            assert(dir_inv(d1));
        }
        (Ok(()), bucket)
    }
    /// Grants `principal` the given role on a file; only the owner may.
    /// Granting a role a principal already has changes nothing.
    pub fn add_file_access(
        &mut self,
        caller: &Principal,
        file_id: &FileId,
        principal: &Principal,
        role: FileRole,
    ) -> (r: DeleteFileResult)
        requires
            old(self).wf(),
        ensures
            final(self).wf(),
            same_dir_config(final(self)@, old(self)@),
            final(self)@.users == old(self)@.users,
            final(self)@.uploads == old(self)@.uploads,
            final(self)@.file_to_bucket == old(self)@.file_to_bucket,
            final(self)@.buckets == old(self)@.buckets,
            final(self)@.links == old(self)@.links,
            r is Err ==> final(self)@.files == old(self)@.files,
            match kv_get(old(self)@.files, file_key(file_id@)) {
                None => r matches Err(e) && e is FileNotFound,
                Some(m) => if m.file_id.owner != caller@ {
                    r matches Err(e) && e is Unauthorized
                } else {
                    let m2 = match role {
                        FileRole::Reader => FileMetaV {
                            readers: if m.readers.contains(principal@) {
                                m.readers
                            } else {
                                m.readers.push(principal@)
                            },
                            ..m
                        },
                        FileRole::Writer => FileMetaV {
                            writers: if m.writers.contains(principal@) {
                                m.writers
                            } else {
                                m.writers.push(principal@)
                            },
                            ..m
                        },
                    };
                    &&& r is Ok
                    &&& kv_get(final(self)@.files, file_key(file_id@)) == Some(m2)
                    &&& forall|k2: Seq<u8>|
                        k2 != file_key(file_id@) ==> kv_get(final(self)@.files, k2) == kv_get(
                            old(self)@.files,
                            k2,
                        )
                },
            },
    {
        let ghost d0 = self@;
        let fkey = file_key_bytes(file_id);
        let mut meta: FileMeta = match self.files.get(fkey.as_slice()) {
            None => {
                return Err(DirectoryError::FileNotFound);
            },
            Some(m) => m.clone(),
        };
        let ghost m = meta@;
        if !crate::shared::bytes::bytes_eq(meta.file_id.owner.as_slice(), caller.as_slice()) {
            return Err(DirectoryError::Unauthorized);
        }
        match role {
            FileRole::Reader => {
                if !crate::bucket::api::contains_principal(&meta.readers, principal) {
                    meta.readers.push(principal.clone());
                }
            },
            FileRole::Writer => {
                if !crate::bucket::api::contains_principal(&meta.writers, principal) {
                    meta.writers.push(principal.clone());
                }
            },
        }
        proof {
            assert(meta@.readers =~= if m.readers.contains(principal@) || role is Writer {
                m.readers
            } else {
                m.readers.push(principal@)
            });
            assert(meta@.writers =~= if m.writers.contains(principal@) || role is Reader {
                m.writers
            } else {
                m.writers.push(principal@)
            });
        }
        self.update_file_row(fkey, meta);
        Ok(())
    }

    /// Revokes every role `principal` holds on the file; only the owner may.
    pub fn remove_file_access(
        &mut self,
        caller: &Principal,
        file_id: &FileId,
        principal: &Principal,
    ) -> (r: DeleteFileResult)
        requires
            old(self).wf(),
        ensures
            final(self).wf(),
            same_dir_config(final(self)@, old(self)@),
            final(self)@.users == old(self)@.users,
            final(self)@.uploads == old(self)@.uploads,
            final(self)@.file_to_bucket == old(self)@.file_to_bucket,
            final(self)@.buckets == old(self)@.buckets,
            final(self)@.links == old(self)@.links,
            r is Err ==> final(self)@.files == old(self)@.files,
            match kv_get(old(self)@.files, file_key(file_id@)) {
                None => r matches Err(e) && e is FileNotFound,
                Some(m) => if m.file_id.owner != caller@ {
                    r matches Err(e) && e is Unauthorized
                } else {
                    let m2 = FileMetaV {
                        readers: m.readers.filter(|q: Seq<u8>| q != principal@),
                        writers: m.writers.filter(|q: Seq<u8>| q != principal@),
                        ..m
                    };
                    &&& r is Ok
                    &&& kv_get(final(self)@.files, file_key(file_id@)) == Some(m2)
                    &&& forall|k2: Seq<u8>|
                        k2 != file_key(file_id@) ==> kv_get(final(self)@.files, k2) == kv_get(
                            old(self)@.files,
                            k2,
                        )
                },
            },
    {
        let fkey = file_key_bytes(file_id);
        let mut meta: FileMeta = match self.files.get(fkey.as_slice()) {
            None => {
                return Err(DirectoryError::FileNotFound);
            },
            Some(m) => m.clone(),
        };
        if !crate::shared::bytes::bytes_eq(meta.file_id.owner.as_slice(), caller.as_slice()) {
            return Err(DirectoryError::Unauthorized);
        }
        meta.readers = remove_principal(&meta.readers, principal);
        meta.writers = remove_principal(&meta.writers, principal);
        self.update_file_row(fkey, meta);
        Ok(())
    }

    /// Replaces a stored file row with one of the same identity and size;
    /// every table invariant survives such an update.
    fn update_file_row(&mut self, fkey: Vec<u8>, meta: FileMeta)
        requires
            old(self).wf(),
            kv_contains(old(self)@.files, fkey@),
            kv_get(old(self)@.files, fkey@) matches Some(m) && m.file_id == meta@.file_id
                && m.size_bytes == meta@.size_bytes && m.chunk_size == meta@.chunk_size
                && m.chunk_count == meta@.chunk_count,
            fkey@ == file_key(meta@.file_id),
        ensures
            final(self).wf(),
            same_dir_config(final(self)@, old(self)@),
            final(self)@.users == old(self)@.users,
            final(self)@.uploads == old(self)@.uploads,
            final(self)@.file_to_bucket == old(self)@.file_to_bucket,
            final(self)@.buckets == old(self)@.buckets,
            final(self)@.links == old(self)@.links,
            kv_get(final(self)@.files, fkey@) == Some(meta@),
            forall|k2: Seq<u8>|
                k2 != fkey@ ==> kv_get(final(self)@.files, k2) == kv_get(old(self)@.files, k2),
    {
        let ghost d0 = self@;
        let ghost m2 = meta@;
        let ghost i = kv_idx(d0.files, fkey@);
        proof {
            lemma_kv_get_at(d0.files, i);
            assert(file_row_ok(d0.files[i]));
        }
        self.files.insert(fkey, meta);
        proof {
            let d1 = self@;
            let e = (file_key(m2.file_id), m2);
            assert(d1.files == d0.files.update(i, e));
            assert forall|j: int| 0 <= j < d1.files.len() implies file_row_ok(
                #[trigger] d1.files[j],
            ) && kv_contains(d1.users, d1.files[j].1.file_id.owner) by {
                if j != i {
                    assert(d1.files[j] == d0.files[j]);
                }
            }
            assert forall|j: int| 0 <= j < d1.uploads.len() implies !kv_contains(
                d1.files,
                file_key((#[trigger] d1.uploads[j]).1.file_id),
            ) by {
                let sj = d1.uploads[j].1;
                assert(!kv_contains(d0.files, file_key(sj.file_id)));
                if kv_contains(d1.files, file_key(sj.file_id)) {
                    let mm = kv_idx(d1.files, file_key(sj.file_id));
                    assert(d1.files[mm].0 == d0.files[mm].0);
                    assert(kv_contains(d0.files, file_key(sj.file_id)));
                }
            }
            assert forall|j: int| 0 <= j < d1.users.len() implies (
            #[trigger] d1.users[j]).1.used_bytes == owned_bytes(d1.files, d1.users[j].0) by {
                let u = d1.users[j].0;
                let f = |en: (Seq<u8>, FileMetaV)|
                    if en.1.file_id.owner == u {
                        en.1.size_bytes as int
                    } else {
                        0
                    };
                lemma_kv_sum_update(d0.files, i, e, f);
                assert(f(e) == f(d0.files[i]));
                assert(owned_bytes(d1.files, u) == owned_bytes(d0.files, u));
            }
            assert(dir_inv(d1));
        }
    }

    /// Mints a share link for a file the caller owns: the given token (at
    /// least 16 bytes of entropy, fresh among the links) grants anonymous
    /// read access until the TTL runs out or the link is revoked.
    pub fn create_share_link(
        &mut self,
        caller: &Principal,
        file_id: &FileId,
        ttl_ns: u64,
        link_token: Vec<u8>,
        now: u64,
    ) -> (r: CreateShareLinkResult)
        requires
            old(self).wf(),
        ensures
            final(self).wf(),
            same_dir_config(final(self)@, old(self)@),
            final(self)@.users == old(self)@.users,
            final(self)@.files == old(self)@.files,
            final(self)@.uploads == old(self)@.uploads,
            final(self)@.file_to_bucket == old(self)@.file_to_bucket,
            final(self)@.buckets == old(self)@.buckets,
            r is Err ==> final(self)@.links == old(self)@.links,
            match kv_get(old(self)@.files, file_key(file_id@)) {
                None => r matches Err(e) && e is FileNotFound,
                Some(m) => if m.file_id.owner != caller@ {
                    r matches Err(e) && e is Unauthorized
                } else if link_token@.len() < MIN_LINK_TOKEN_LEN || kv_contains(
                    old(self)@.links,
                    link_token@,
                ) {
                    r matches Err(e) && e is InvalidRequest
                } else {
                    &&& r matches Ok(t) && t@ == link_token@
                    &&& kv_get(final(self)@.links, link_token@) == Some(
                        LinkInfoV {
                            file_id: file_id@,
                            expires_at_ns: sat_add64(now, ttl_ns),
                            revoked: false,
                        },
                    )
                    &&& forall|k2: Seq<u8>|
                        k2 != link_token@ ==> kv_get(final(self)@.links, k2) == kv_get(
                            old(self)@.links,
                            k2,
                        )
                },
            },
    {
        let fkey = file_key_bytes(file_id);
        let owner_ok: bool = match self.files.get(fkey.as_slice()) {
            None => {
                return Err(DirectoryError::FileNotFound);
            },
            Some(m) => crate::shared::bytes::bytes_eq(
                m.file_id.owner.as_slice(),
                caller.as_slice(),
            ),
        };
        if !owner_ok {
            return Err(DirectoryError::Unauthorized);
        }
        if link_token.len() < MIN_LINK_TOKEN_LEN {
            return Err(DirectoryError::InvalidRequest(String::from_str("link token too short")));
        }
        if self.links.get(link_token.as_slice()).is_some() {
            return Err(DirectoryError::InvalidRequest(String::from_str("link token collision")));
        }
        let expires_at_ns = if now > u64::MAX - ttl_ns {
            u64::MAX
        } else {
            now + ttl_ns
        };
        let info = LinkInfo { file_id: file_id.clone(), expires_at_ns, revoked: false };
        let result = link_token.clone();
        self.links.insert(link_token, info);
        Ok(result)
    }

    /// Resolves a share link without any caller authentication: an
    /// unrevoked, unexpired link to a `Ready` file yields a download plan
    /// whose token expires at the link expiry or in an hour, whichever is
    /// sooner.
    pub fn resolve_share_link(&self, link_token: &Vec<u8>, now: u64) -> (r:
        ResolveShareLinkResult)
        requires
            self.wf(),
        ensures
            match kv_get(self@.links, link_token@) {
                None => r matches Err(e) && e is LinkNotFound,
                Some(l) => if l.revoked {
                    r matches Err(e) && e is LinkNotFound
                } else if now >= l.expires_at_ns {
                    r matches Err(e) && e is LinkExpired
                } else {
                    match kv_get(self@.files, file_key(l.file_id)) {
                        None => r matches Err(e) && e is FileNotFound,
                        Some(m) => if !(m.status is Ready) {
                            r matches Err(e) && e is FileNotFound
                        } else {
                            match kv_get(self@.file_to_bucket, file_key(l.file_id)) {
                                None => r matches Err(e) && e is InvalidRequest,
                                Some(pl) => {
                                    let expiry = if sat_add64(now, DOWNLOAD_TOKEN_TTL_NS)
                                        < l.expires_at_ns {
                                        sat_add64(now, DOWNLOAD_TOKEN_TTL_NS)
                                    } else {
                                        l.expires_at_ns
                                    };
                                    r matches Ok(plan) && plan_ok(
                                        &plan,
                                        m,
                                        pl.bucket,
                                        self@.id,
                                        expiry,
                                        self@.secret,
                                    )
                                },
                            }
                        },
                    }
                },
            },
    {
        let link: LinkInfo = match self.links.get(link_token.as_slice()) {
            None => {
                return Err(DirectoryError::LinkNotFound);
            },
            Some(l) => l.clone(),
        };
        if link.revoked {
            return Err(DirectoryError::LinkNotFound);
        }
        if now >= link.expires_at_ns {
            return Err(DirectoryError::LinkExpired);
        }
        let fkey = file_key_bytes(&link.file_id);
        let meta: FileMeta = match self.files.get(fkey.as_slice()) {
            None => {
                return Err(DirectoryError::FileNotFound);
            },
            Some(m) => m.clone(),
        };
        match meta.status {
            FileStatus::Ready => {},
            _ => {
                return Err(DirectoryError::FileNotFound);
            },
        }
        let bucket: Principal = match self.file_to_bucket.get(fkey.as_slice()) {
            None => {
                return Err(DirectoryError::InvalidRequest(String::from_str(
                    "no bucket assigned for this file",
                )));
            },
            Some(pl) => pl.bucket.clone(),
        };
        let default_expiry = if now > u64::MAX - DOWNLOAD_TOKEN_TTL_NS {
            u64::MAX
        } else {
            now + DOWNLOAD_TOKEN_TTL_NS
        };
        let expires_at = if default_expiry < link.expires_at_ns {
            default_expiry
        } else {
            link.expires_at_ns
        };
        Ok(self.build_plan(&meta, &bucket, expires_at))
    }

    /// Revokes a share link; only the owner of the linked file may.
    pub fn revoke_share_link(&mut self, caller: &Principal, link_token: &Vec<u8>) -> (r: Result<
        (),
        DirectoryError,
    >)
        requires
            old(self).wf(),
        ensures
            final(self).wf(),
            same_dir_config(final(self)@, old(self)@),
            final(self)@.users == old(self)@.users,
            final(self)@.files == old(self)@.files,
            final(self)@.uploads == old(self)@.uploads,
            final(self)@.file_to_bucket == old(self)@.file_to_bucket,
            final(self)@.buckets == old(self)@.buckets,
            r is Err ==> final(self)@.links == old(self)@.links,
            match kv_get(old(self)@.links, link_token@) {
                None => r matches Err(e) && e is LinkNotFound,
                Some(l) => match kv_get(old(self)@.files, file_key(l.file_id)) {
                    None => r matches Err(e) && e is FileNotFound,
                    Some(m) => if m.file_id.owner != caller@ {
                        r matches Err(e) && e is Unauthorized
                    } else {
                        &&& r is Ok
                        &&& kv_get(final(self)@.links, link_token@) == Some(
                            LinkInfoV { revoked: true, ..l },
                        )
                        &&& forall|k2: Seq<u8>|
                            k2 != link_token@ ==> kv_get(final(self)@.links, k2) == kv_get(
                                old(self)@.links,
                                k2,
                            )
                    },
                },
            },
    {
        let mut link: LinkInfo = match self.links.get(link_token.as_slice()) {
            None => {
                return Err(DirectoryError::LinkNotFound);
            },
            Some(l) => l.clone(),
        };
        let fkey = file_key_bytes(&link.file_id);
        let owner_ok: bool = match self.files.get(fkey.as_slice()) {
            None => {
                return Err(DirectoryError::FileNotFound);
            },
            Some(m) => crate::shared::bytes::bytes_eq(
                m.file_id.owner.as_slice(),
                caller.as_slice(),
            ),
        };
        if !owner_ok {
            return Err(DirectoryError::Unauthorized);
        }
        link.revoked = true;
        let key = link_token.clone();
        self.links.insert(key, link);
        Ok(())
    }
    /// Registers a new bucket, admin only: writable, empty, with the
    /// standard soft and hard limits. A bucket can be provisioned once.
    pub fn provision_bucket(
        &mut self,
        caller: &Principal,
        is_controller: bool,
        bucket_id: Principal,
    ) -> (r: ProvisionBucketResult)
        requires
            old(self).wf(),
        ensures
            final(self).wf(),
            same_dir_config(final(self)@, old(self)@),
            final(self)@.users == old(self)@.users,
            final(self)@.files == old(self)@.files,
            final(self)@.uploads == old(self)@.uploads,
            final(self)@.file_to_bucket == old(self)@.file_to_bucket,
            final(self)@.links == old(self)@.links,
            r is Err ==> final(self)@.buckets == old(self)@.buckets,
            !is_dir_admin(old(self)@, caller@, is_controller) ==> (r matches Err(e)
                && e is AdminOnly),
            is_dir_admin(old(self)@, caller@, is_controller) && kv_contains(
                old(self)@.buckets,
                bucket_id@,
            ) ==> (r matches Err(e) && e is BucketAlreadyExists),
            is_dir_admin(old(self)@, caller@, is_controller) && !kv_contains(
                old(self)@.buckets,
                bucket_id@,
            ) ==> {
                &&& r is Ok
                &&& kv_get(final(self)@.buckets, bucket_id@) == Some(
                    BucketInfoV {
                        id: bucket_id@,
                        writable: true,
                        used_bytes: 0,
                        soft_limit_bytes: BUCKET_SOFT_LIMIT_BYTES,
                        hard_limit_bytes: BUCKET_HARD_LIMIT_BYTES,
                    },
                )
                &&& forall|k2: Seq<u8>|
                    k2 != bucket_id@ ==> kv_get(final(self)@.buckets, k2) == kv_get(
                        old(self)@.buckets,
                        k2,
                    )
            },
    {
        let ghost d0 = self@;
        if !self.is_admin(caller, is_controller) {
            return Err(DirectoryError::AdminOnly);
        }
        let key = bucket_id.to_vec();
        if self.buckets.get(key.as_slice()).is_some() {
            return Err(DirectoryError::BucketAlreadyExists);
        }
        let info = BucketInfo {
            id: bucket_id,
            writable: true,
            used_bytes: 0,
            soft_limit_bytes: BUCKET_SOFT_LIMIT_BYTES,
            hard_limit_bytes: BUCKET_HARD_LIMIT_BYTES,
        };
        self.buckets.insert(key, info);
        proof {
            let d1 = self@;
            let e = (bucket_id@, BucketInfoV {
                id: bucket_id@,
                writable: true,
                used_bytes: 0,
                soft_limit_bytes: BUCKET_SOFT_LIMIT_BYTES,
                hard_limit_bytes: BUCKET_HARD_LIMIT_BYTES,
            });
            let p = choose|p: int|
                0 <= p <= d0.buckets.len() && d1.buckets == d0.buckets.insert(p, e);
            assert forall|j: int| 0 <= j < d1.buckets.len() implies (
            #[trigger] d1.buckets[j]).0 == d1.buckets[j].1.id by {
                if j < p {
                    assert(d1.buckets[j] == d0.buckets[j]);
                } else if j > p {
                    assert(d1.buckets[j] == d0.buckets[j - 1]);
                }
            }
            assert(dir_inv(d1));
        }
        Ok(())
    }

    /// Sets the storage rate, admin only.
    pub fn admin_set_pricing(
        &mut self,
        caller: &Principal,
        is_controller: bool,
        rate_per_gb_per_month: u64,
    ) -> (r: Result<(), DirectoryError>)
        requires
            old(self).wf(),
        ensures
            final(self).wf(),
            final(self)@.id == old(self)@.id && final(self)@.admins == old(self)@.admins
                && final(self)@.secret == old(self)@.secret,
            final(self)@.users == old(self)@.users,
            final(self)@.files == old(self)@.files,
            final(self)@.uploads == old(self)@.uploads,
            final(self)@.file_to_bucket == old(self)@.file_to_bucket,
            final(self)@.buckets == old(self)@.buckets,
            final(self)@.links == old(self)@.links,
            !is_dir_admin(old(self)@, caller@, is_controller) ==> (r matches Err(e)
                && e is AdminOnly && final(self)@.rate_per_gb_per_month == old(
                self,
            )@.rate_per_gb_per_month),
            is_dir_admin(old(self)@, caller@, is_controller) ==> r is Ok
                && final(self)@.rate_per_gb_per_month == Some(rate_per_gb_per_month),
    {
        if !self.is_admin(caller, is_controller) {
            return Err(DirectoryError::AdminOnly);
        }
        self.config.rate_per_gb_per_month = Some(rate_per_gb_per_month);
        Ok(())
    }

    /// Sets a user's quota, admin only; what the user has stored is kept.
    pub fn admin_set_quota(
        &mut self,
        caller: &Principal,
        is_controller: bool,
        user: &Principal,
        quota_bytes: u64,
    ) -> (r: Result<(), DirectoryError>)
        requires
            old(self).wf(),
        ensures
            final(self).wf(),
            same_dir_config(final(self)@, old(self)@),
            final(self)@.files == old(self)@.files,
            final(self)@.uploads == old(self)@.uploads,
            final(self)@.file_to_bucket == old(self)@.file_to_bucket,
            final(self)@.buckets == old(self)@.buckets,
            final(self)@.links == old(self)@.links,
            r is Err ==> final(self)@.users == old(self)@.users,
            !is_dir_admin(old(self)@, caller@, is_controller) ==> (r matches Err(e)
                && e is AdminOnly),
            is_dir_admin(old(self)@, caller@, is_controller) ==> {
                let st = user_or_default(old(self)@.users, user@);
                &&& r is Ok
                &&& kv_get(final(self)@.users, user@) == Some(
                    UserState { used_bytes: st.used_bytes, quota_bytes },
                )
                &&& forall|k2: Seq<u8>|
                    k2 != user@ ==> kv_get(final(self)@.users, k2) == kv_get(
                        old(self)@.users,
                        k2,
                    )
            },
    {
        let ghost d0 = self@;
        if !self.is_admin(caller, is_controller) {
            return Err(DirectoryError::AdminOnly);
        }
        let key = user.to_vec();
        let st = match self.users.get(key.as_slice()) {
            Some(st) => *st,
            None => UserState { used_bytes: 0, quota_bytes: DEFAULT_QUOTA_BYTES },
        };
        self.users.insert(key, UserState { used_bytes: st.used_bytes, quota_bytes });
        proof {
            let d1 = self@;
            lemma_quota_conservation(d0, user@);
            assert forall|j: int| 0 <= j < d1.users.len() implies (
            #[trigger] d1.users[j]).1.used_bytes == owned_bytes(d1.files, d1.users[j].0) by {
                let u = d1.users[j].0;
                lemma_kv_get_at(d1.users, j);
                if u == user@ {
                } else {
                    assert(kv_get(d1.users, u) == kv_get(d0.users, u));
                    lemma_quota_conservation(d0, u);
                }
            }
            assert forall|j: int| 0 <= j < d1.files.len() implies kv_contains(
                d1.users,
                (#[trigger] d1.files[j]).1.file_id.owner,
            ) by {
                let o = d1.files[j].1.file_id.owner;
                assert(kv_contains(d0.users, o));
                if o != user@ {
                    assert(kv_get(d1.users, o) == kv_get(d0.users, o));
                }
            }
            assert(dir_inv(d1));
        }
        Ok(())
    }

    /// The admin gate of a withdrawal: the ledger transfer itself is an
    /// outside call its caller performs after this check.
    pub fn authorize_withdraw(&self, caller: &Principal, is_controller: bool) -> (r: Result<
        (),
        DirectoryError,
    >)
        ensures
            r is Ok <==> is_dir_admin(self@, caller@, is_controller),
            r matches Err(e) ==> e is AdminOnly,
    {
        if self.is_admin(caller, is_controller) {
            Ok(())
        } else {
            Err(DirectoryError::AdminOnly)
        }
    }

    /// Removes every session that has reached its expiry: afterwards no
    /// session with `expires_at_ns <= now` remains, and every live session
    /// is untouched.
    pub fn reap_expired_uploads(&mut self, now: u64)
        requires
            old(self).wf(),
        ensures
            final(self).wf(),
            same_dir_config(final(self)@, old(self)@),
            final(self)@.users == old(self)@.users,
            final(self)@.files == old(self)@.files,
            final(self)@.file_to_bucket == old(self)@.file_to_bucket,
            final(self)@.buckets == old(self)@.buckets,
            final(self)@.links == old(self)@.links,
            forall|k: Seq<u8>|
                #![trigger kv_get(final(self)@.uploads, k)]
                kv_get(final(self)@.uploads, k) == (match kv_get(old(self)@.uploads, k) {
                    Some(s) => if s.expires_at_ns > now {
                        Some(s)
                    } else {
                        None
                    },
                    None => None,
                }),
    {
        let ghost d0 = self@;
        let mut i: usize = 0;
        while i < self.uploads.len()
            invariant
                self.wf(),
                0 <= i <= self@.uploads.len(),
                same_dir_config(self@, d0),
                self@.users == d0.users,
                self@.files == d0.files,
                self@.file_to_bucket == d0.file_to_bucket,
                self@.buckets == d0.buckets,
                self@.links == d0.links,
                forall|j: int|
                    0 <= j < i ==> (#[trigger] self@.uploads[j]).1.expires_at_ns > now,
                forall|k: Seq<u8>|
                    #![trigger kv_get(self@.uploads, k)]
                    kv_get(self@.uploads, k) is Some ==> kv_get(self@.uploads, k) == kv_get(
                        d0.uploads,
                        k,
                    ),
                forall|k: Seq<u8>|
                    #![trigger kv_get(d0.uploads, k)]
                    (kv_get(d0.uploads, k) matches Some(s) && s.expires_at_ns > now) ==> kv_get(
                        self@.uploads,
                        k,
                    ) == kv_get(d0.uploads, k),
            decreases self@.uploads.len() - i,
        {
            let ghost db = self@;
            let expired = self.uploads.entry_at(i).1.expires_at_ns <= now;
            if expired {
                let key = self.uploads.entry_at(i).0.clone();
                proof {
                    lemma_kv_get_at(db.uploads, i as int);
                }
                let _ = self.uploads.remove(key.as_slice());
                proof {
                    let d1 = self@;
                    assert(d1.uploads == db.uploads.remove(i as int));
                    assert forall|j: int| 0 <= j < d1.uploads.len() implies session_row_ok(
                        #[trigger] d1.uploads[j],
                    ) && !kv_contains(d1.files, file_key(d1.uploads[j].1.file_id)) by {
                        if j < i {
                            assert(d1.uploads[j] == db.uploads[j]);
                        } else {
                            assert(d1.uploads[j] == db.uploads[j + 1]);
                        }
                    }
                    assert(dir_inv(d1));
                    assert forall|j: int| 0 <= j < i implies (
                    #[trigger] d1.uploads[j]).1.expires_at_ns > now by {
                        assert(d1.uploads[j] == db.uploads[j]);
                    }
                }
            } else {
                i = i + 1;
            }
        }
        proof {
            let d1 = self@;
            assert forall|k: Seq<u8>|
                #![trigger kv_get(d1.uploads, k)]
                kv_get(d1.uploads, k) == (match kv_get(d0.uploads, k) {
                    Some(s) => if s.expires_at_ns > now {
                        Some(s)
                    } else {
                        None
                    },
                    None => None,
                }) by {
                if kv_get(d1.uploads, k) is Some {
                    let j = kv_idx(d1.uploads, k);
                    assert(0 <= j < d1.uploads.len() && d1.uploads[j].0 == k);
                    lemma_kv_get_at(d1.uploads, j);
                    assert(d1.uploads[j].1.expires_at_ns > now);
                }
            }
        }
    }

    /// One sweep of the collector: lists every recorded placement whose file
    /// row is gone — the bucket holding those chunks should be told to
    /// delete the file — and reaps expired sessions.
    pub fn garbage_collect(&mut self, now: u64) -> (orphans: Vec<Placement>)
        requires
            old(self).wf(),
        ensures
            final(self).wf(),
            same_dir_config(final(self)@, old(self)@),
            final(self)@.users == old(self)@.users,
            final(self)@.files == old(self)@.files,
            final(self)@.file_to_bucket == old(self)@.file_to_bucket,
            final(self)@.buckets == old(self)@.buckets,
            final(self)@.links == old(self)@.links,
            forall|k: Seq<u8>|
                #![trigger kv_get(final(self)@.uploads, k)]
                kv_get(final(self)@.uploads, k) == (match kv_get(old(self)@.uploads, k) {
                    Some(s) => if s.expires_at_ns > now {
                        Some(s)
                    } else {
                        None
                    },
                    None => None,
                }),
            orphans@.map_values(|p: Placement| p@) == old(self)@.file_to_bucket.filter(
                |e: (Seq<u8>, PlacementV)| !kv_contains(old(self)@.files, e.0),
            ).map_values(|e: (Seq<u8>, PlacementV)| e.1),
    {
        let ghost d0 = self@;
        let ghost pred = |e: (Seq<u8>, PlacementV)| !kv_contains(d0.files, e.0);
        let ghost proj = |e: (Seq<u8>, PlacementV)| e.1;
        let mut orphans: Vec<Placement> = Vec::new();
        let n = self.file_to_bucket.len();
        proof {
            assert(d0.file_to_bucket.take(0) =~= Seq::<(Seq<u8>, PlacementV)>::empty());
            assert(orphans@.map_values(|p: Placement| p@) =~= d0.file_to_bucket.take(0).filter(
                pred,
            ).map_values(proj));
        }
        let mut i: usize = 0;
        while i < n
            invariant
                0 <= i <= n,
                self.wf(),
                self@ == d0,
                n == d0.file_to_bucket.len(),
                pred == (|e: (Seq<u8>, PlacementV)| !kv_contains(d0.files, e.0)),
                proj == (|e: (Seq<u8>, PlacementV)| e.1),
                orphans@.map_values(|p: Placement| p@) == d0.file_to_bucket.take(i as int).filter(
                    pred,
                ).map_values(proj),
            decreases n - i,
        {
            let entry = self.file_to_bucket.entry_at(i);
            let ghost e = d0.file_to_bucket[i as int];
            proof {
                assert(d0.file_to_bucket.take(i + 1) =~= d0.file_to_bucket.take(i as int).push(e));
                reveal(Seq::filter);
                assert(d0.file_to_bucket.take(i as int).push(e).filter(pred) == if pred(e) {
                    d0.file_to_bucket.take(i as int).filter(pred).push(e)
                } else {
                    d0.file_to_bucket.take(i as int).filter(pred)
                }) by {
                    assert(d0.file_to_bucket.take(i as int).push(e).drop_last()
                        =~= d0.file_to_bucket.take(i as int));
                }
            }
            if self.files.get(entry.0.as_slice()).is_none() {
                let ghost orphans0 = orphans@;
                orphans.push(entry.1.clone());
                proof {
                    assert(pred(e));
                    let fold = d0.file_to_bucket.take(i as int).filter(pred);
                    assert(d0.file_to_bucket.take(i + 1).filter(pred) == fold.push(e));
                    let lhs = orphans@.map_values(|p: Placement| p@);
                    let rhs = fold.push(e).map_values(proj);
                    assert(orphans@ == orphans0.push(orphans@[orphans0.len() as int]));
                    assert(orphans@[orphans0.len() as int]@ == e.1);
                    assert(orphans0.map_values(|p: Placement| p@) == fold.map_values(proj));
                    assert(orphans0.map_values(|p: Placement| p@).len() == orphans0.len());
                    assert(fold.map_values(proj).len() == fold.len());
                    assert(lhs.len() == rhs.len());
                    assert forall|j: int| 0 <= j < lhs.len() implies lhs[j] == rhs[j] by {
                        if j < orphans0.len() {
                            assert(lhs[j] == orphans0[j]@);
                            assert(orphans0.map_values(|p: Placement| p@)[j] == orphans0[j]@);
                            assert(fold.map_values(proj)[j] == proj(fold[j]));
                        } else {
                            assert(lhs[j] == e.1);
                            assert(rhs[j] == proj(e));
                        }
                    }
                    assert(lhs =~= rhs);
                }
            } else {
                proof {
                    assert(!pred(e));
                    assert(orphans@.map_values(|p: Placement| p@) =~= d0.file_to_bucket.take(
                        i + 1,
                    ).filter(pred).map_values(proj));
                }
            }
            i = i + 1;
        }
        proof {
            assert(d0.file_to_bucket.take(n as int) =~= d0.file_to_bucket);
        }
        self.reap_expired_uploads(now);
        orphans
    }

    /// Forgets the placement of a file whose row is gone, once its bucket
    /// has been told to delete the chunks. A placement whose file still
    /// exists is kept.
    pub fn clear_placement(&mut self, file_id: &FileId) -> (r: bool)
        requires
            old(self).wf(),
        ensures
            final(self).wf(),
            same_dir_config(final(self)@, old(self)@),
            final(self)@.users == old(self)@.users,
            final(self)@.files == old(self)@.files,
            final(self)@.uploads == old(self)@.uploads,
            final(self)@.buckets == old(self)@.buckets,
            final(self)@.links == old(self)@.links,
            r == (kv_contains(old(self)@.file_to_bucket, file_key(file_id@)) && !kv_contains(
                old(self)@.files,
                file_key(file_id@),
            )),
            r ==> !kv_contains(final(self)@.file_to_bucket, file_key(file_id@)) && forall|
                k2: Seq<u8>,
            |
                k2 != file_key(file_id@) ==> kv_get(final(self)@.file_to_bucket, k2) == kv_get(
                    old(self)@.file_to_bucket,
                    k2,
                ),
            !r ==> final(self)@.file_to_bucket == old(self)@.file_to_bucket,
    {
        let ghost d0 = self@;
        let fkey = file_key_bytes(file_id);
        if self.files.get(fkey.as_slice()).is_some() {
            return false;
        }
        if self.file_to_bucket.get(fkey.as_slice()).is_none() {
            return false;
        }
        proof {
            let i = kv_idx(d0.file_to_bucket, file_key(file_id@));
            lemma_kv_get_at(d0.file_to_bucket, i);
        }
        let _ = self.file_to_bucket.remove(fkey.as_slice());
        proof {
            let d1 = self@;
            let i = kv_idx(d0.file_to_bucket, file_key(file_id@));
            assert(d1.file_to_bucket == d0.file_to_bucket.remove(i));
            assert forall|j: int| 0 <= j < d1.file_to_bucket.len() implies (
            #[trigger] d1.file_to_bucket[j]).0 == file_key(d1.file_to_bucket[j].1.file_id)
                && d1.file_to_bucket[j].1.file_id.owner.len() <= MAX_PRINCIPAL_LEN
                && d1.file_to_bucket[j].1.file_id.id.len() == FILE_ID_LEN by {
                if j < i {
                    assert(d1.file_to_bucket[j] == d0.file_to_bucket[j]);
                } else {
                    assert(d1.file_to_bucket[j] == d0.file_to_bucket[j + 1]);
                }
            }
            assert(dir_inv(d1));
        }
        true
    }
}

/// Folds the outcome of the ledger transfer into the withdrawal result: any
/// transfer error is reported with its message.
pub fn settle_withdraw(transfer: Result<(), String>) -> (r: AdminWithdrawResult)
    ensures
        transfer is Ok <==> r is Ok,
        transfer matches Err(m) ==> (r matches Err(e) && e matches DirectoryError::TransferFailed(
            m2,
        ) && m2@ == m@),
{
    match transfer {
        Ok(_) => Ok(()),
        Err(m) => Err(DirectoryError::TransferFailed(m)),
    }
}

/// Whether a heartbeat tick is one the collector runs on: once every
/// thousand ticks.
pub fn gc_due(tick: u64) -> (r: bool)
    ensures
        r == (tick % 1000 == 0),
{
    tick % 1000 == 0
}

/// What reserving an upload of this size costs.
pub fn estimate_upload_cost(size_bytes: u64) -> (r: u128)
    ensures
        r == crate::directory::billing::spec_reservation_cost(size_bytes),
{
    crate::directory::billing::calculate_reservation_cost(size_bytes)
}

/// The principals of `v` with `p` taken out.
pub fn remove_principal(v: &Vec<Principal>, p: &Principal) -> (r: Vec<Principal>)
    ensures
        r@.map_values(|q: Principal| q@) == v@.map_values(|q: Principal| q@).filter(
            |q: Seq<u8>| q != p@,
        ),
{
    let ghost views = v@.map_values(|q: Principal| q@);
    let ghost pred = |q: Seq<u8>| q != p@;
    let mut r: Vec<Principal> = Vec::new();
    proof {
        assert(views.take(0) =~= Seq::<Seq<u8>>::empty());
        assert(r@.map_values(|q: Principal| q@) =~= views.take(0).filter(pred));
    }
    let mut i: usize = 0;
    while i < v.len()
        invariant
            0 <= i <= v@.len(),
            views == v@.map_values(|q: Principal| q@),
            pred == (|q: Seq<u8>| q != p@),
            r@.map_values(|q: Principal| q@) == views.take(i as int).filter(pred),
        decreases v@.len() - i,
    {
        proof {
            assert(views[i as int] == v@[i as int]@);
            assert(views.take(i + 1) =~= views.take(i as int).push(views[i as int]));
            reveal(Seq::filter);
            assert(views.take(i as int).push(views[i as int]).filter(pred) == if pred(
                views[i as int],
            ) {
                views.take(i as int).filter(pred).push(views[i as int])
            } else {
                views.take(i as int).filter(pred)
            }) by {
                assert(views.take(i as int).push(views[i as int]).drop_last() =~= views.take(
                    i as int,
                ));
            }
        }
        if !crate::shared::bytes::bytes_eq(v[i].as_slice(), p.as_slice()) {
            r.push(v[i].clone());
            proof {
                assert(r@.map_values(|q: Principal| q@) =~= views.take(i + 1).filter(pred));
            }
        } else {
            proof {
                assert(r@.map_values(|q: Principal| q@) =~= views.take(i + 1).filter(pred));
            }
        }
        i = i + 1;
    }
    proof {
        assert(views.take(v@.len() as int) =~= views);
    }
    r
}

/// Whether the caller may read the file: ownership or the access lists.
pub fn can_read_meta(meta: &FileMeta, caller: &Principal) -> (r: bool)
    ensures
        r == can_read(meta@, caller@),
{
    if crate::shared::bytes::bytes_eq(meta.file_id.owner.as_slice(), caller.as_slice()) {
        return true;
    }
    if crate::bucket::api::contains_principal(&meta.readers, caller) {
        return true;
    }
    crate::bucket::api::contains_principal(&meta.writers, caller)
}

/// Whether the caller may change the file: ownership or the writer list.
pub fn can_write_meta(meta: &FileMeta, caller: &Principal) -> (r: bool)
    ensures
        r == can_write(meta@, caller@),
{
    if crate::shared::bytes::bytes_eq(meta.file_id.owner.as_slice(), caller.as_slice()) {
        return true;
    }
    crate::bucket::api::contains_principal(&meta.writers, caller)
}

} // verus!
