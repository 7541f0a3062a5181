//! The bucket endpoints: store a chunk under a valid upload token, hand a
//! chunk back under a valid download token, range-delete a file's chunks,
//! and the admin gate.

use vstd::prelude::*;

use crate::bucket::config::Config;
use crate::bucket::errors::BucketError;
use crate::bucket::results::{
    AdminSetReadOnlyResult, AdminWithdrawResult, DeleteFileResult, GetChunkResult, PutChunkResult,
};
use crate::bucket::types::{
    chunk_prefix, lemma_chunk_key_has_prefix, packed_chunk_key, ChunkKey, ChunkValue,
};
use crate::shared::auth::{
    download_sig_valid, upload_sig_valid, verify_download_token, verify_token,
};
use crate::shared::bytes::has_prefix;
use crate::shared::constants::FILE_ID_LEN;
use crate::shared::text::{dec_str, u64_to_dec};
use crate::shared::types::{valid_id_len, DownloadToken, FileId, Principal, UploadToken};
use crate::store::{kv_contains, kv_get, Store};
use vstd::string::StringExecFns;

verus! {

/// One bucket service: its identity, its configuration, and the chunk store.
pub struct Bucket {
    pub id: Principal,
    pub config: Config,
    pub chunks: Store<ChunkValue>,
}

/// What a bucket's behaviour depends on: its identity, the effective admin
/// set, read-only gate and secret, and the stored chunks by packed key.
pub ghost struct BucketV {
    pub id: Seq<u8>,
    pub admins: Seq<Seq<u8>>,
    pub read_only: bool,
    pub secret: Seq<u8>,
    pub chunks: Seq<(Seq<u8>, Seq<u8>)>,
}

impl View for Bucket {
    type V = BucketV;

    open spec fn view(&self) -> BucketV {
        BucketV {
            id: self.id@,
            admins: match self.config.admins {
                Some(a) => a@.map_values(|p: Principal| p@),
                None => Seq::empty(),
            },
            read_only: match self.config.read_only {
                Some(r) => r,
                None => false,
            },
            secret: match self.config.shared_secret {
                Some(s) => s@,
                None => Seq::empty(),
            },
            chunks: self.chunks.kseq(),
        }
    }
}

/// The caller is a controller or a configured admin.
pub open spec fn is_admin_of(b: BucketV, caller: Seq<u8>, is_controller: bool) -> bool {
    is_controller || b.admins.contains(caller)
}

/// Everything `put_chunk` demands of a token after payment: the bucket is
/// writable, the signature is the HMAC of the canonical message under this
/// bucket's secret, the token has not expired, it names this bucket, it
/// allows the requested index, and the file id is well formed.
pub open spec fn upload_token_accepted(
    b: BucketV,
    t: crate::shared::types::UploadTokenV,
    chunk_index: u32,
    now: u64,
) -> bool {
    &&& !b.read_only
    &&& upload_sig_valid(t, b.secret)
    &&& t.expires_at >= now
    &&& t.bucket_id == b.id
    &&& t.allowed_chunks.contains(chunk_index)
    &&& valid_id_len(t.file_id.id)
}

/// What `get_chunk` demands of a download token: as for upload tokens, but
/// a download token covers the whole file, so no index check, and reads are
/// allowed in read-only mode.
pub open spec fn download_token_accepted(
    b: BucketV,
    t: crate::shared::types::DownloadTokenV,
    now: u64,
) -> bool {
    &&& download_sig_valid(t, b.secret)
    &&& t.expires_at >= now
    &&& t.bucket_id == b.id
    &&& valid_id_len(t.file_id.id)
}

/// The configuration-derived parts of two bucket views agree.
pub open spec fn same_bucket_config(a: BucketV, b: BucketV) -> bool {
    a.id == b.id && a.admins == b.admins && a.read_only == b.read_only && a.secret == b.secret
}

impl Bucket {
    pub open spec fn wf(&self) -> bool {
        self.chunks.wf()
    }

    /// A fresh bucket: the given identity and configuration, no chunks.
    pub fn new(id: Principal, config: Config) -> (r: Bucket)
        ensures
            r.wf(),
            r@.id == id@,
            r@.chunks == Seq::<(Seq<u8>, Seq<u8>)>::empty(),
            r@.admins == match config.admins {
                Some(a) => a@.map_values(|p: Principal| p@),
                None => Seq::<Seq<u8>>::empty(),
            },
            r@.read_only == match config.read_only {
                Some(ro) => ro,
                None => false,
            },
            r@.secret == match config.shared_secret {
                Some(sec) => sec@,
                None => Seq::<u8>::empty(),
            },
    {
        Bucket { id, config, chunks: Store::new() }
    }

    /// Stores `bytes` under the packed key of the token's file and the given
    /// index, if the payment went through and the token authorizes exactly
    /// this write. Returns the size stored. The key layout makes the write
    /// idempotent: a retry overwrites the same key.
    pub fn put_chunk(
        &mut self,
        token: &UploadToken,
        chunk_index: u32,
        bytes: Vec<u8>,
        payment: Result<(), String>,
        now: u64,
    ) -> (r: PutChunkResult)
        requires
            old(self).wf(),
            bytes@.len() <= u32::MAX,
        ensures
            final(self).wf(),
            same_bucket_config(final(self)@, old(self)@),
            r matches Ok(n) ==> {
                &&& payment is Ok
                &&& upload_token_accepted(old(self)@, token@, chunk_index, now)
                &&& n == bytes@.len()
                &&& kv_get(final(self)@.chunks, packed_chunk_key(token@.file_id.owner,
                    token@.file_id.id, chunk_index)) == Some(bytes@)
                &&& forall|k2: Seq<u8>|
                    k2 != packed_chunk_key(token@.file_id.owner, token@.file_id.id, chunk_index)
                        ==> kv_get(final(self)@.chunks, k2) == kv_get(old(self)@.chunks, k2)
            },
            r is Err ==> final(self)@.chunks == old(self)@.chunks,
            (payment is Ok && upload_token_accepted(old(self)@, token@, chunk_index, now))
                <==> r is Ok,
            payment matches Err(m) ==> (r matches Err(e) && e matches
                BucketError::PaymentFailed(m2) && m2@ == m@),
            payment is Ok && old(self)@.read_only ==> (r matches Err(e)
                && e is ReadOnly),
            payment is Ok && !old(self)@.read_only && !upload_sig_valid(token@, old(self)@.secret)
                ==> (r matches Err(e) && e is InvalidSignature),
            payment is Ok && !old(self)@.read_only && upload_sig_valid(token@, old(self)@.secret)
                && token@.expires_at < now ==> (r matches Err(e)
                && e is TokenExpired),
            payment is Ok && !old(self)@.read_only && upload_sig_valid(token@, old(self)@.secret)
                && token@.expires_at >= now && token@.bucket_id != old(self)@.id ==> (
            r matches Err(e) && e is WrongBucket),
            payment is Ok && !old(self)@.read_only && upload_sig_valid(token@, old(self)@.secret)
                && token@.expires_at >= now && token@.bucket_id == old(self)@.id
                && !token@.allowed_chunks.contains(chunk_index) ==> (
            r matches Err(e) && e matches BucketError::ChunkNotAllowed(i) && i
                == chunk_index),
            payment is Ok && !old(self)@.read_only && upload_sig_valid(token@, old(self)@.secret)
                && token@.expires_at >= now && token@.bucket_id == old(self)@.id
                && token@.allowed_chunks.contains(chunk_index) && !valid_id_len(token@.file_id.id)
                ==> (r matches Err(e) && e is InvalidFileId),
    {
        if let Err(m) = payment {
            return Err(BucketError::PaymentFailed(m));
        }
        let read_only = match self.config.read_only {
            Some(r) => r,
            None => false,
        };
        if read_only {
            return Err(BucketError::ReadOnly);
        }
        let empty_secret: Vec<u8> = Vec::new();
        let secret: &Vec<u8> = match &self.config.shared_secret {
            Some(s) => s,
            None => &empty_secret,
        };
        proof {
            assert(empty_secret@ =~= Seq::<u8>::empty());
        }
        if !verify_token(token, secret.as_slice()) {
            return Err(BucketError::InvalidSignature);
        }
        if token.expires_at < now {
            return Err(BucketError::TokenExpired);
        }
        if !(token.bucket_id == self.id) {
            return Err(BucketError::WrongBucket);
        }
        if !contains_index(&token.allowed_chunks, chunk_index) {
            return Err(BucketError::ChunkNotAllowed(chunk_index));
        }
        if token.file_id.id.len() != FILE_ID_LEN {
            return Err(BucketError::InvalidFileId);
        }
        let key = ChunkKey::new(&token.file_id.owner, token.file_id.id.as_slice(), chunk_index);
        let size = bytes.len() as u32;
        self.chunks.insert(key.to_bytes(), ChunkValue(bytes));
        Ok(size)
    }

    /// Hands back the chunk stored under the token's file and the given
    /// index, if the token authorizes reading this file here and now.
    pub fn get_chunk(&self, token: &DownloadToken, chunk_index: u32, now: u64) -> (r:
        GetChunkResult)
        requires
            self.wf(),
        ensures
            r matches Ok(bytes) ==> {
                &&& download_token_accepted(self@, token@, now)
                &&& kv_get(self@.chunks, packed_chunk_key(token@.file_id.owner, token@.file_id.id,
                    chunk_index)) == Some(bytes@)
            },
            download_token_accepted(self@, token@, now) ==> match kv_get(self@.chunks,
                packed_chunk_key(token@.file_id.owner, token@.file_id.id, chunk_index)) {
                Some(bytes) => r matches Ok(b) && b@ == bytes,
                None => r matches Err(e) && e is ChunkNotFound,
            },
            !download_sig_valid(token@, self@.secret) ==> (r matches Err(e)
                && e is InvalidSignature),
            download_sig_valid(token@, self@.secret) && token@.expires_at < now ==> (
            r matches Err(e) && e is TokenExpired),
            download_sig_valid(token@, self@.secret) && token@.expires_at >= now
                && token@.bucket_id != self@.id ==> (r matches Err(e)
                && e is WrongBucket),
            download_sig_valid(token@, self@.secret) && token@.expires_at >= now
                && token@.bucket_id == self@.id && !valid_id_len(token@.file_id.id) ==> (
            r matches Err(e) && e is InvalidFileId),
    {
        let empty_secret: Vec<u8> = Vec::new();
        let secret: &Vec<u8> = match &self.config.shared_secret {
            Some(s) => s,
            None => &empty_secret,
        };
        proof {
            assert(empty_secret@ =~= Seq::<u8>::empty());
        }
        if !verify_download_token(token, secret.as_slice()) {
            return Err(BucketError::InvalidSignature);
        }
        if token.expires_at < now {
            return Err(BucketError::TokenExpired);
        }
        if !(token.bucket_id == self.id) {
            return Err(BucketError::WrongBucket);
        }
        if token.file_id.id.len() != FILE_ID_LEN {
            return Err(BucketError::InvalidFileId);
        }
        let key = ChunkKey::new(&token.file_id.owner, token.file_id.id.as_slice(), chunk_index);
        let key_bytes = key.to_bytes();
        match self.chunks.get(key_bytes.as_slice()) {
            Some(v) => Ok(v.to_bytes()),
            None => Err(BucketError::ChunkNotFound),
        }
    }

    /// Removes every chunk of the file: a range scan from the file's 46-byte
    /// prefix, taking keys while the prefix matches. Keys of other files are
    /// untouched; repeating the call removes nothing more.
    pub fn delete_file(&mut self, file_id: &FileId) -> (r: DeleteFileResult)
        requires
            old(self).wf(),
        ensures
            final(self).wf(),
            same_bucket_config(final(self)@, old(self)@),
            !valid_id_len(file_id@.id) ==> (r matches Err(e)
                && e is InvalidFileId && final(self)@.chunks == old(self)@.chunks),
            valid_id_len(file_id@.id) ==> {
                &&& r is Ok
                &&& forall|k: Seq<u8>|
                    has_prefix(k, chunk_prefix(file_id@.owner, file_id@.id)) ==> !kv_contains(
                        final(self)@.chunks,
                        k,
                    )
                &&& forall|k: Seq<u8>|
                    !has_prefix(k, chunk_prefix(file_id@.owner, file_id@.id)) ==> kv_get(
                        final(self)@.chunks,
                        k,
                    ) == kv_get(old(self)@.chunks, k)
            },
    {
        if file_id.id.len() != FILE_ID_LEN {
            return Err(BucketError::InvalidFileId);
        }
        let start = ChunkKey::new(&file_id.owner, file_id.id.as_slice(), 0);
        let packed = start.to_bytes();
        // The first 46 bytes of the packed key are the file's prefix.
        let mut prefix: Vec<u8> = Vec::new();
        let mut i: usize = 0;
        while i < 46
            invariant
                0 <= i <= 46,
                packed@.len() == 50,
                prefix@.len() == i,
                forall|j: int| 0 <= j < i ==> prefix@[j] == packed@[j],
            decreases 46 - i,
        {
            prefix.push(packed[i]);
            i = i + 1;
        }
        proof {
            lemma_chunk_key_has_prefix(file_id@.owner, file_id@.id, 0);
            assert(prefix@ =~= chunk_prefix(file_id@.owner, file_id@.id)) by {
                assert(packed@.take(46) =~= chunk_prefix(file_id@.owner, file_id@.id));
                assert(prefix@ =~= packed@.take(46));
            }
        }
        self.chunks.remove_prefix(prefix.as_slice());
        Ok(())
    }

    /// A one-line summary: how many chunks this bucket holds.
    pub fn stat(&self) -> (r: String)
        ensures
            r@ == "Chunks stored: "@ + dec_str(self@.chunks.len() as int),
    {
        let mut s = String::from_str("Chunks stored: ");
        let count = u64_to_dec(self.chunks.len() as u64);
        s.append(count.as_str());
        s
    }

    /// Whether the caller may perform admin actions here.
    pub fn is_admin(&self, caller: &Principal, is_controller: bool) -> (r: bool)
        ensures
            r == is_admin_of(self@, caller@, is_controller),
    {
        if is_controller {
            return true;
        }
        match &self.config.admins {
            Some(admins) => contains_principal(admins, caller),
            None => false,
        }
    }

    /// Flips the write gate; admin only.
    pub fn admin_set_read_only(
        &mut self,
        caller: &Principal,
        is_controller: bool,
        read_only: bool,
    ) -> (r: AdminSetReadOnlyResult)
        requires
            old(self).wf(),
        ensures
            final(self).wf(),
            final(self)@.chunks == old(self)@.chunks,
            final(self)@.id == old(self)@.id && final(self)@.admins == old(self)@.admins
                && final(self)@.secret == old(self)@.secret,
            is_admin_of(old(self)@, caller@, is_controller) ==> (r is Ok && final(self)@.read_only
                == read_only),
            !is_admin_of(old(self)@, caller@, is_controller) ==> (r matches
                Err(e) && e is AdminOnly && final(self)@.read_only == old(
                self,
            )@.read_only),
    {
        if !self.is_admin(caller, is_controller) {
            return Err(BucketError::AdminOnly);
        }
        self.config.read_only = Some(read_only);
        Ok(())
    }

    /// The admin gate of a withdrawal: the transfer itself is an outside
    /// call its caller performs after this check.
    pub fn authorize_withdraw(&self, caller: &Principal, is_controller: bool) -> (r: Result<
        (),
        BucketError,
    >)
        ensures
            r is Ok <==> is_admin_of(self@, caller@, is_controller),
            r matches Err(e) ==> e is AdminOnly,
    {
        if self.is_admin(caller, is_controller) {
            Ok(())
        } else {
            Err(BucketError::AdminOnly)
        }
    }
}

/// Folds the outcome of the ledger transfer into the withdrawal result: any
/// transfer error is reported as a payment failure with its message.
pub fn settle_withdraw(transfer: Result<(), String>) -> (r: AdminWithdrawResult)
    ensures
        transfer is Ok <==> r is Ok,
        transfer matches Err(m) ==> (r matches Err(e) && e matches
            BucketError::PaymentFailed(m2) && m2@ == m@),
{
    match transfer {
        Ok(_) => Ok(()),
        Err(m) => Err(BucketError::PaymentFailed(m)),
    }
}

/// Whether `chunks` lists the index `x`.
pub fn contains_index(chunks: &Vec<u32>, x: u32) -> (r: bool)
    ensures
        r == chunks@.contains(x),
{
    let mut i: usize = 0;
    while i < chunks.len()
        invariant
            0 <= i <= chunks@.len(),
            forall|j: int| 0 <= j < i ==> chunks@[j] != x,
        decreases chunks@.len() - i,
    {
        if chunks[i] == x {
            return true;
        }
        i = i + 1;
    }
    false
}

/// Whether `list` contains the principal `p`.
pub fn contains_principal(list: &Vec<Principal>, p: &Principal) -> (r: bool)
    ensures
        r == list@.map_values(|q: Principal| q@).contains(p@),
{
    let ghost views = list@.map_values(|q: Principal| q@);
    let mut i: usize = 0;
    while i < list.len()
        invariant
            0 <= i <= list@.len(),
            views == list@.map_values(|q: Principal| q@),
            forall|j: int| 0 <= j < i ==> views[j] != p@,
        decreases list@.len() - i,
    {
        if crate::shared::bytes::bytes_eq(list[i].as_slice(), p.as_slice()) {
            proof {
                assert(views[i as int] == list@[i as int]@);
            }
            return true;
        }
        proof {
            assert(views[i as int] == list@[i as int]@);
        }
        i = i + 1;
    }
    proof {
        if views.contains(p@) {
            let j = choose|j: int| 0 <= j < views.len() && views[j] == p@;
            assert(false);
        }
    }
    false
}

} // verus!
