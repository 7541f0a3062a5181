//! The data model: principals, file identities and metadata, upload
//! sessions, capability tokens, download plans, share links, and payment
//! kinds.

use vstd::prelude::*;

use crate::shared::constants::{FILE_ID_LEN, MAX_PRINCIPAL_LEN};

verus! {

/// An opaque caller identity of at most 29 bytes, ordered bytewise.
#[derive(Debug)]
pub struct Principal {
    bytes: Vec<u8>,
}

impl View for Principal {
    type V = Seq<u8>;

    closed spec fn view(&self) -> Seq<u8> {
        self.bytes@
    }
}

impl Principal {
    #[verifier::type_invariant]
    spec fn type_inv(self) -> bool {
        self.bytes@.len() <= MAX_PRINCIPAL_LEN
    }

    /// Builds a principal from raw bytes; anything longer than 29 bytes is
    /// not a principal.
    pub fn try_from_slice(s: &[u8]) -> (r: Option<Principal>)
        ensures
            s@.len() <= MAX_PRINCIPAL_LEN ==> (r matches Some(p) && p@ == s@),
            s@.len() > MAX_PRINCIPAL_LEN ==> r is None,
    {
        if s.len() <= MAX_PRINCIPAL_LEN {
            let mut bytes: Vec<u8> = Vec::new();
            bytes.extend_from_slice(s);
            proof {
                assert(bytes@ =~= s@);
            }
            Some(Principal { bytes })
        } else {
            None
        }
    }

    /// The anonymous principal, a single byte 0x04.
    pub fn anonymous() -> (r: Principal)
        ensures
            r@ == seq![4u8],
    {
        let mut bytes: Vec<u8> = Vec::new();
        bytes.push(4u8);
        proof {
            assert(bytes@ =~= seq![4u8]);
        }
        Principal { bytes }
    }

    pub fn as_slice(&self) -> (r: &[u8])
        ensures
            r@ == self@,
            self@.len() <= MAX_PRINCIPAL_LEN,
    {
        proof {
            use_type_invariant(self);
        }
        self.bytes.as_slice()
    }

    pub fn to_vec(&self) -> (r: Vec<u8>)
        ensures
            r@ == self@,
            self@.len() <= MAX_PRINCIPAL_LEN,
    {
        proof {
            use_type_invariant(self);
        }
        let mut r: Vec<u8> = Vec::new();
        r.extend_from_slice(self.bytes.as_slice());
        proof {
            assert(r@ =~= self@);
        }
        r
    }

}

impl Clone for Principal {
    fn clone(&self) -> (r: Self)
        ensures
            r@ == self@,
    {
        proof {
            use_type_invariant(self);
        }
        Principal { bytes: self.bytes.clone() }
    }
}

impl PartialEq for Principal {
    fn eq(&self, other: &Principal) -> (r: bool) {
        crate::shared::bytes::bytes_eq(self.bytes.as_slice(), other.bytes.as_slice())
    }
}

impl Eq for Principal {

}

impl vstd::std_specs::cmp::PartialEqSpecImpl for Principal {
    open spec fn obeys_eq_spec() -> bool {
        true
    }

    open spec fn eq_spec(&self, other: &Principal) -> bool {
        self@ == other@
    }
}

/// A globally unique file identity: the owner plus a 16-byte id.
#[derive(Debug)]
pub struct FileId {
    pub owner: Principal,
    pub id: Vec<u8>,
}

/// The ghost value of a `FileId`.
pub ghost struct FileIdV {
    pub owner: Seq<u8>,
    pub id: Seq<u8>,
}

impl View for FileId {
    type V = FileIdV;

    open spec fn view(&self) -> FileIdV {
        FileIdV { owner: self.owner@, id: self.id@ }
    }
}

impl Clone for FileId {
    fn clone(&self) -> (r: Self)
        ensures
            r@ == self@,
    {
        FileId { owner: self.owner.clone(), id: self.id.clone() }
    }
}

/// The store key of a file: the owner length, the owner bytes, then the id.
/// The leading length byte makes the encoding prefix-free, so distinct file
/// identities never collide.
pub open spec fn file_key(f: FileIdV) -> Seq<u8> {
    seq![f.owner.len() as u8] + f.owner + f.id
}

/// Distinct file identities encode to distinct keys.
pub proof fn lemma_file_key_inj(a: FileIdV, b: FileIdV)
    requires
        a.owner.len() <= MAX_PRINCIPAL_LEN,
        b.owner.len() <= MAX_PRINCIPAL_LEN,
        file_key(a) == file_key(b),
    ensures
        a == b,
{
    let ka = file_key(a);
    let kb = file_key(b);
    assert(ka[0] == a.owner.len() as u8);
    assert(kb[0] == b.owner.len() as u8);
    assert(a.owner.len() == b.owner.len());
    let n = a.owner.len() as int;
    assert(a.owner =~= kb.subrange(1, 1 + n)) by {
        assert(forall|i: int| 0 <= i < n ==> #[trigger] a.owner[i] == ka[1 + i]);
    }
    assert(b.owner =~= kb.subrange(1, 1 + n)) by {
        assert(forall|i: int| 0 <= i < n ==> #[trigger] b.owner[i] == kb[1 + i]);
    }
    assert(ka.len() == kb.len());
    assert(a.id.len() == b.id.len());
    assert(a.id =~= kb.subrange(1 + n, kb.len() as int)) by {
        assert(forall|i: int| 0 <= i < a.id.len() ==> #[trigger] a.id[i] == ka[1 + n + i]);
    }
    assert(b.id =~= kb.subrange(1 + n, kb.len() as int)) by {
        assert(forall|i: int| 0 <= i < b.id.len() ==> #[trigger] b.id[i] == kb[1 + n + i]);
    }
}

/// Builds the store key of a file identity.
pub fn file_key_bytes(f: &FileId) -> (r: Vec<u8>)
    ensures
        r@ == file_key(f@),
{
    let owner = f.owner.as_slice();
    let mut r: Vec<u8> = Vec::new();
    r.push(owner.len() as u8);
    r.extend_from_slice(owner);
    r.extend_from_slice(f.id.as_slice());
    proof {
        assert(r@ =~= file_key(f@));
    }
    r
}

#[derive(Clone, Copy, Debug, PartialEq, Eq, Structural)]
pub enum FileStatus {
    Pending,
    Ready,
    Deleted,
}

#[derive(Clone, Copy, Debug, PartialEq, Eq, Structural)]
pub enum FileRole {
    Reader,
    Writer,
}

#[derive(Clone, Copy, Debug)]
pub struct PricingConfig {
    pub rate_per_gb_per_month: u64,
}

/// Metadata of a stored file.
#[derive(Debug)]
pub struct FileMeta {
    pub file_id: FileId,
    pub name: String,
    pub mime: String,
    pub size_bytes: u64,
    pub chunk_size: u32,
    pub chunk_count: u32,
    pub created_at_ns: u64,
    pub updated_at_ns: u64,
    pub status: FileStatus,
    pub sha256: Option<Vec<u8>>,
    pub readers: Vec<Principal>,
    pub writers: Vec<Principal>,
}

pub ghost struct FileMetaV {
    pub file_id: FileIdV,
    pub name: Seq<char>,
    pub mime: Seq<char>,
    pub size_bytes: u64,
    pub chunk_size: u32,
    pub chunk_count: u32,
    pub created_at_ns: u64,
    pub updated_at_ns: u64,
    pub status: FileStatus,
    pub sha256: Option<Seq<u8>>,
    pub readers: Seq<Seq<u8>>,
    pub writers: Seq<Seq<u8>>,
}

impl View for FileMeta {
    type V = FileMetaV;

    open spec fn view(&self) -> FileMetaV {
        FileMetaV {
            file_id: self.file_id@,
            name: self.name@,
            mime: self.mime@,
            size_bytes: self.size_bytes,
            chunk_size: self.chunk_size,
            chunk_count: self.chunk_count,
            created_at_ns: self.created_at_ns,
            updated_at_ns: self.updated_at_ns,
            status: self.status,
            sha256: match self.sha256 {
                Some(h) => Some(h@),
                None => None,
            },
            readers: self.readers@.map_values(|p: Principal| p@),
            writers: self.writers@.map_values(|p: Principal| p@),
        }
    }
}

impl Clone for FileMeta {
    fn clone(&self) -> (r: Self)
        ensures
            r@ == self@,
    {
        let r = FileMeta {
            file_id: self.file_id.clone(),
            name: self.name.clone(),
            mime: self.mime.clone(),
            size_bytes: self.size_bytes,
            chunk_size: self.chunk_size,
            chunk_count: self.chunk_count,
            created_at_ns: self.created_at_ns,
            updated_at_ns: self.updated_at_ns,
            status: self.status,
            sha256: match &self.sha256 {
                Some(h) => Some(h.clone()),
                None => None,
            },
            readers: clone_principals(&self.readers),
            writers: clone_principals(&self.writers),
        };
        proof {
            assert(r@.readers =~= self@.readers);
            assert(r@.writers =~= self@.writers);
        }
        r
    }
}

/// Clones a list of principals.
pub fn clone_principals(v: &Vec<Principal>) -> (r: Vec<Principal>)
    ensures
        r@.map_values(|p: Principal| p@) == v@.map_values(|p: Principal| p@),
{
    let mut r: Vec<Principal> = Vec::new();
    let mut i: usize = 0;
    while i < v.len()
        invariant
            0 <= i <= v@.len(),
            r@.len() == i,
            forall|j: int| 0 <= j < i ==> (#[trigger] r@[j])@ == v@[j]@,
        decreases v@.len() - i,
    {
        r.push(v[i].clone());
        i = i + 1;
    }
    proof {
        assert(r@.map_values(|p: Principal| p@) =~= v@.map_values(|p: Principal| p@));
    }
    r
}

/// An in-progress upload.
#[derive(Debug)]
pub struct UploadSession {
    pub upload_id: Vec<u8>,
    pub file_id: FileId,
    pub name: String,
    pub mime: String,
    pub chunk_size: u32,
    pub expected_size_bytes: u64,
    pub expected_chunk_count: u32,
    pub uploaded_chunks: Vec<u32>,
    pub expires_at_ns: u64,
    pub reserved_credit: u128,
}

pub ghost struct UploadSessionV {
    pub upload_id: Seq<u8>,
    pub file_id: FileIdV,
    pub name: Seq<char>,
    pub mime: Seq<char>,
    pub chunk_size: u32,
    pub expected_size_bytes: u64,
    pub expected_chunk_count: u32,
    pub uploaded_chunks: Seq<u32>,
    pub expires_at_ns: u64,
    pub reserved_credit: u128,
}

impl View for UploadSession {
    type V = UploadSessionV;

    open spec fn view(&self) -> UploadSessionV {
        UploadSessionV {
            upload_id: self.upload_id@,
            file_id: self.file_id@,
            name: self.name@,
            mime: self.mime@,
            chunk_size: self.chunk_size,
            expected_size_bytes: self.expected_size_bytes,
            expected_chunk_count: self.expected_chunk_count,
            uploaded_chunks: self.uploaded_chunks@,
            expires_at_ns: self.expires_at_ns,
            reserved_credit: self.reserved_credit,
        }
    }
}

impl Clone for UploadSession {
    fn clone(&self) -> (r: Self)
        ensures
            r@ == self@,
    {
        UploadSession {
            upload_id: self.upload_id.clone(),
            file_id: self.file_id.clone(),
            name: self.name.clone(),
            mime: self.mime.clone(),
            chunk_size: self.chunk_size,
            expected_size_bytes: self.expected_size_bytes,
            expected_chunk_count: self.expected_chunk_count,
            uploaded_chunks: self.uploaded_chunks.clone(),
            expires_at_ns: self.expires_at_ns,
            reserved_credit: self.reserved_credit,
        }
    }
}

/// A signed authorization to store particular chunks of one file in one
/// bucket.
#[derive(Debug)]
pub struct UploadToken {
    pub upload_id: Vec<u8>,
    pub file_id: FileId,
    pub bucket_id: Principal,
    pub directory_id: Principal,
    pub expires_at: u64,
    pub allowed_chunks: Vec<u32>,
    pub sig: Vec<u8>,
}

pub ghost struct UploadTokenV {
    pub upload_id: Seq<u8>,
    pub file_id: FileIdV,
    pub bucket_id: Seq<u8>,
    pub directory_id: Seq<u8>,
    pub expires_at: u64,
    pub allowed_chunks: Seq<u32>,
    pub sig: Seq<u8>,
}

impl View for UploadToken {
    type V = UploadTokenV;

    open spec fn view(&self) -> UploadTokenV {
        UploadTokenV {
            upload_id: self.upload_id@,
            file_id: self.file_id@,
            bucket_id: self.bucket_id@,
            directory_id: self.directory_id@,
            expires_at: self.expires_at,
            allowed_chunks: self.allowed_chunks@,
            sig: self.sig@,
        }
    }
}

impl Clone for UploadToken {
    fn clone(&self) -> (r: Self)
        ensures
            r@ == self@,
    {
        UploadToken {
            upload_id: self.upload_id.clone(),
            file_id: self.file_id.clone(),
            bucket_id: self.bucket_id.clone(),
            directory_id: self.directory_id.clone(),
            expires_at: self.expires_at,
            allowed_chunks: self.allowed_chunks.clone(),
            sig: self.sig.clone(),
        }
    }
}

/// A signed authorization to read any chunk of one file from one bucket.
#[derive(Debug)]
pub struct DownloadToken {
    pub file_id: FileId,
    pub bucket_id: Principal,
    pub directory_id: Principal,
    pub expires_at: u64,
    pub sig: Vec<u8>,
}

pub ghost struct DownloadTokenV {
    pub file_id: FileIdV,
    pub bucket_id: Seq<u8>,
    pub directory_id: Seq<u8>,
    pub expires_at: u64,
    pub sig: Seq<u8>,
}

impl View for DownloadToken {
    type V = DownloadTokenV;

    open spec fn view(&self) -> DownloadTokenV {
        DownloadTokenV {
            file_id: self.file_id@,
            bucket_id: self.bucket_id@,
            directory_id: self.directory_id@,
            expires_at: self.expires_at,
            sig: self.sig@,
        }
    }
}

impl Clone for DownloadToken {
    fn clone(&self) -> (r: Self)
        ensures
            r@ == self@,
    {
        DownloadToken {
            file_id: self.file_id.clone(),
            bucket_id: self.bucket_id.clone(),
            directory_id: self.directory_id.clone(),
            expires_at: self.expires_at,
            sig: self.sig.clone(),
        }
    }
}

/// Where one chunk of a file can be fetched.
#[derive(Debug)]
pub struct ChunkLocation {
    pub chunk_index: u32,
    pub bucket: Principal,
}

pub ghost struct ChunkLocationV {
    pub chunk_index: u32,
    pub bucket: Seq<u8>,
}

impl View for ChunkLocation {
    type V = ChunkLocationV;

    open spec fn view(&self) -> ChunkLocationV {
        ChunkLocationV { chunk_index: self.chunk_index, bucket: self.bucket@ }
    }
}

/// The download token for one bucket referenced by a plan.
#[derive(Debug)]
pub struct DownloadAuth {
    pub bucket_id: Principal,
    pub token: DownloadToken,
}

pub ghost struct DownloadAuthV {
    pub bucket_id: Seq<u8>,
    pub token: DownloadTokenV,
}

impl View for DownloadAuth {
    type V = DownloadAuthV;

    open spec fn view(&self) -> DownloadAuthV {
        DownloadAuthV { bucket_id: self.bucket_id@, token: self.token@ }
    }
}

/// Everything a client needs to fetch a file: chunk geometry, per-chunk
/// locations, and a signed download token per referenced bucket.
#[derive(Debug)]
pub struct DownloadPlan {
    pub chunk_count: u32,
    pub chunk_size: u32,
    pub locations: Vec<ChunkLocation>,
    pub auth: Vec<DownloadAuth>,
}

/// A share link: time-bounded unauthenticated read access to one file.
#[derive(Debug)]
pub struct LinkInfo {
    pub file_id: FileId,
    pub expires_at_ns: u64,
    pub revoked: bool,
}

pub ghost struct LinkInfoV {
    pub file_id: FileIdV,
    pub expires_at_ns: u64,
    pub revoked: bool,
}

impl View for LinkInfo {
    type V = LinkInfoV;

    open spec fn view(&self) -> LinkInfoV {
        LinkInfoV { file_id: self.file_id@, expires_at_ns: self.expires_at_ns, revoked: self.revoked }
    }
}

impl Clone for LinkInfo {
    fn clone(&self) -> (r: Self)
        ensures
            r@ == self@,
    {
        LinkInfo {
            file_id: self.file_id.clone(),
            expires_at_ns: self.expires_at_ns,
            revoked: self.revoked,
        }
    }
}

/// How a call is paid for; the closed set of accepted funding kinds.
#[derive(Debug)]
pub enum PaymentType {
    AttachedCycles,
    CallerPaysCycles,
    PatronPaysCycles,
    CallerPaysTokens { ledger: Principal },
    PatronPaysTokens { ledger: Principal },
}

impl Clone for PaymentType {
    fn clone(&self) -> (r: Self)
        ensures
            payment_view(&r) == payment_view(self),
    {
        match self {
            PaymentType::AttachedCycles => PaymentType::AttachedCycles,
            PaymentType::CallerPaysCycles => PaymentType::CallerPaysCycles,
            PaymentType::PatronPaysCycles => PaymentType::PatronPaysCycles,
            PaymentType::CallerPaysTokens { ledger } => PaymentType::CallerPaysTokens {
                ledger: ledger.clone(),
            },
            PaymentType::PatronPaysTokens { ledger } => PaymentType::PatronPaysTokens {
                ledger: ledger.clone(),
            },
        }
    }
}

/// The ghost value of a payment kind.
pub ghost enum PaymentTypeV {
    AttachedCycles,
    CallerPaysCycles,
    PatronPaysCycles,
    CallerPaysTokens { ledger: Seq<u8> },
    PatronPaysTokens { ledger: Seq<u8> },
}

pub open spec fn payment_view(p: &PaymentType) -> PaymentTypeV {
    match p {
        PaymentType::AttachedCycles => PaymentTypeV::AttachedCycles,
        PaymentType::CallerPaysCycles => PaymentTypeV::CallerPaysCycles,
        PaymentType::PatronPaysCycles => PaymentTypeV::PatronPaysCycles,
        PaymentType::CallerPaysTokens { ledger } => PaymentTypeV::CallerPaysTokens {
            ledger: ledger@,
        },
        PaymentType::PatronPaysTokens { ledger } => PaymentTypeV::PatronPaysTokens {
            ledger: ledger@,
        },
    }
}

/// A payment funds a ledger-token deduction against the given ledger.
pub open spec fn pays_with_ledger(p: PaymentTypeV, ledger: Seq<u8>) -> bool {
    match p {
        PaymentTypeV::CallerPaysTokens { ledger: l } => l == ledger,
        PaymentTypeV::PatronPaysTokens { ledger: l } => l == ledger,
        _ => false,
    }
}

/// A snapshot of a running service, reported by its status endpoint.
#[derive(Debug)]
pub struct CanisterStatus {
    pub version: String,
    pub cycles_balance: u128,
    pub memory_usage_bytes: u64,
    pub heap_memory_usage_bytes: u64,
}

/// Both identifiers are minted as exactly 16 bytes.
pub open spec fn valid_id_len(id: Seq<u8>) -> bool {
    id.len() == FILE_ID_LEN
}

} // verus!
