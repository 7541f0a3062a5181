//! The chunk key: exactly 50 bytes packed as owner (padded to 29), owner
//! length, 16-byte file id, and big-endian chunk index. Big-endian is what
//! makes an ordered range scan visit the chunks of one file in ascending
//! index order.

use vstd::prelude::*;

use crate::shared::bytes::{
    lemma_lex_concat_same_prefix, lemma_u32_be_inverse, lemma_u32_be_order, lex_lt, u32_be_bytes,
    u32_from_be, u32_from_be_bytes, u32_to_be,
};
use crate::shared::constants::{FILE_ID_LEN, MAX_PRINCIPAL_LEN};
use crate::shared::types::Principal;

verus! {

/// The key of one stored chunk.
#[derive(Debug)]
pub struct ChunkKey {
    pub owner: [u8; 29],
    pub owner_len: u8,
    pub file_id: [u8; 16],
    pub chunk_index: u32,
}

pub ghost struct ChunkKeyV {
    pub owner: Seq<u8>,
    pub owner_len: u8,
    pub file_id: Seq<u8>,
    pub chunk_index: u32,
}

impl View for ChunkKey {
    type V = ChunkKeyV;

    open spec fn view(&self) -> ChunkKeyV {
        ChunkKeyV {
            owner: self.owner@,
            owner_len: self.owner_len,
            file_id: self.file_id@,
            chunk_index: self.chunk_index,
        }
    }
}

/// `s` padded with zero bytes up to the fixed owner width.
pub open spec fn pad29(s: Seq<u8>) -> Seq<u8>
    recommends
        s.len() <= MAX_PRINCIPAL_LEN,
{
    s + Seq::new((MAX_PRINCIPAL_LEN - s.len()) as nat, |i: int| 0u8)
}

/// The 46-byte prefix shared by every chunk of one file.
pub open spec fn chunk_prefix(owner: Seq<u8>, id: Seq<u8>) -> Seq<u8>
    recommends
        owner.len() <= MAX_PRINCIPAL_LEN,
        id.len() == FILE_ID_LEN,
{
    pad29(owner) + seq![owner.len() as u8] + id
}

/// The full 50-byte packed key of one chunk.
pub open spec fn packed_chunk_key(owner: Seq<u8>, id: Seq<u8>, chunk_index: u32) -> Seq<u8> {
    chunk_prefix(owner, id) + u32_be_bytes(chunk_index)
}

/// The byte encoding of a chunk key value.
pub open spec fn chunk_key_bytes(k: ChunkKeyV) -> Seq<u8> {
    k.owner + seq![k.owner_len] + k.file_id + u32_be_bytes(k.chunk_index)
}

/// Chunks of one file are visited in ascending index order by a scan in key
/// order.
pub proof fn lemma_chunk_key_order(owner: Seq<u8>, id: Seq<u8>, i: u32, j: u32)
    requires
        i < j,
    ensures
        lex_lt(packed_chunk_key(owner, id, i), packed_chunk_key(owner, id, j)),
{
    lemma_u32_be_order(i, j);
    lemma_lex_concat_same_prefix(chunk_prefix(owner, id), u32_be_bytes(i), u32_be_bytes(j));
}

/// Every packed chunk key carries its file's 46-byte prefix.
pub proof fn lemma_chunk_key_has_prefix(owner: Seq<u8>, id: Seq<u8>, chunk_index: u32)
    requires
        owner.len() <= MAX_PRINCIPAL_LEN,
        id.len() == FILE_ID_LEN,
    ensures
        crate::shared::bytes::has_prefix(
            packed_chunk_key(owner, id, chunk_index),
            chunk_prefix(owner, id),
        ),
        packed_chunk_key(owner, id, chunk_index).len() == 50,
{
    let p = chunk_prefix(owner, id);
    let k = packed_chunk_key(owner, id, chunk_index);
    assert(p.len() == 46);
    assert(k.take(46) =~= p);
}

/// Distinct files claim disjoint key ranges: a chunk key of one file never
/// carries another file's 46-byte prefix. Together with the range deletion
/// this is what makes deleting one file leave every other file's chunks
/// untouched.
pub proof fn lemma_chunk_prefix_disjoint(
    owner1: Seq<u8>,
    id1: Seq<u8>,
    chunk_index: u32,
    owner2: Seq<u8>,
    id2: Seq<u8>,
)
    requires
        owner1.len() <= MAX_PRINCIPAL_LEN,
        owner2.len() <= MAX_PRINCIPAL_LEN,
        id1.len() == FILE_ID_LEN,
        id2.len() == FILE_ID_LEN,
        owner1 != owner2 || id1 != id2,
    ensures
        !crate::shared::bytes::has_prefix(
            packed_chunk_key(owner1, id1, chunk_index),
            chunk_prefix(owner2, id2),
        ),
{
    let k = packed_chunk_key(owner1, id1, chunk_index);
    let p1 = chunk_prefix(owner1, id1);
    let p2 = chunk_prefix(owner2, id2);
    assert(p1.len() == 46 && p2.len() == 46 && k.len() == 50);
    if crate::shared::bytes::has_prefix(k, p2) {
        assert(k.take(46) =~= p1);
        assert(p1 == p2);
        // The length byte and the padded owner pin the owner exactly.
        assert(p1[29] == owner1.len() as u8 && p2[29] == owner2.len() as u8);
        assert(owner1.len() == owner2.len());
        assert(owner1 =~= owner2) by {
            assert(forall|i: int| 0 <= i < owner1.len() ==> #[trigger] owner1[i] == p1[i]);
            assert(forall|i: int| 0 <= i < owner2.len() ==> #[trigger] owner2[i] == p2[i]);
        }
        assert(id1 =~= id2) by {
            assert(forall|i: int| 0 <= i < 16 ==> #[trigger] id1[i] == p1[30 + i]);
            assert(forall|i: int| 0 <= i < 16 ==> #[trigger] id2[i] == p2[30 + i]);
        }
        assert(false);
    }
}

impl ChunkKey {
    /// Packs an owner, a 16-byte file id and a chunk index into a key.
    pub fn new(owner: &Principal, id: &[u8], chunk_index: u32) -> (r: ChunkKey)
        requires
            id@.len() == FILE_ID_LEN,
        ensures
            r@.owner == pad29(owner@),
            r@.owner_len == owner@.len() as u8,
            r@.file_id == id@,
            r@.chunk_index == chunk_index,
            chunk_key_bytes(r@) == packed_chunk_key(owner@, id@, chunk_index),
    {
        let owner_slice = owner.as_slice();
        let mut owner_fixed = [0u8; 29];
        let mut i: usize = 0;
        while i < owner_slice.len()
            invariant
                0 <= i <= owner_slice@.len(),
                owner_slice@.len() <= MAX_PRINCIPAL_LEN,
                owner_fixed@.len() == 29,
                forall|j: int| 0 <= j < i ==> owner_fixed@[j] == owner_slice@[j],
                forall|j: int| i <= j < 29 ==> owner_fixed@[j] == 0u8,
            decreases owner_slice@.len() - i,
        {
            owner_fixed[i] = owner_slice[i];
            i = i + 1;
        }
        let mut fid = [0u8; 16];
        let mut j: usize = 0;
        while j < 16
            invariant
                0 <= j <= 16,
                id@.len() == FILE_ID_LEN,
                fid@.len() == 16,
                forall|m: int| 0 <= m < j ==> fid@[m] == id@[m],
            decreases 16 - j,
        {
            fid[j] = id[j];
            j = j + 1;
        }
        let r = ChunkKey {
            owner: owner_fixed,
            owner_len: owner_slice.len() as u8,
            file_id: fid,
            chunk_index,
        };
        proof {
            assert(r@.owner =~= pad29(owner@));
            assert(r@.file_id =~= id@);
            assert(chunk_key_bytes(r@) =~= packed_chunk_key(owner@, id@, chunk_index));
        }
        r
    }

    /// Packs the key to its exact 50-byte layout.
    pub fn to_bytes(&self) -> (r: Vec<u8>)
        ensures
            r@ == chunk_key_bytes(self@),
            r@.len() == 50,
    {
        let mut r: Vec<u8> = Vec::new();
        r.extend_from_slice(self.owner.as_slice());
        r.push(self.owner_len);
        r.extend_from_slice(self.file_id.as_slice());
        let idx = u32_to_be(self.chunk_index);
        r.extend_from_slice(idx.as_slice());
        proof {
            assert(r@ =~= chunk_key_bytes(self@));
        }
        r
    }

    /// Reads a key back from its 50-byte layout.
    pub fn from_bytes(bytes: &[u8]) -> (r: ChunkKey)
        requires
            bytes@.len() == 50,
        ensures
            r@.owner == bytes@.take(29),
            r@.owner_len == bytes@[29],
            r@.file_id == bytes@.subrange(30, 46),
            r@.chunk_index == u32_from_be_bytes(bytes@.subrange(46, 50)),
            chunk_key_bytes(r@) == bytes@,
    {
        let mut owner = [0u8; 29];
        let mut i: usize = 0;
        while i < 29
            invariant
                0 <= i <= 29,
                bytes@.len() == 50,
                owner@.len() == 29,
                forall|j: int| 0 <= j < i ==> owner@[j] == bytes@[j],
            decreases 29 - i,
        {
            owner[i] = bytes[i];
            i = i + 1;
        }
        let owner_len = bytes[29];
        let mut fid = [0u8; 16];
        let mut j: usize = 0;
        while j < 16
            invariant
                0 <= j <= 16,
                bytes@.len() == 50,
                fid@.len() == 16,
                forall|m: int| 0 <= m < j ==> fid@[m] == bytes@[30 + m],
            decreases 16 - j,
        {
            fid[j] = bytes[30 + j];
            j = j + 1;
        }
        let chunk_index = u32_from_be(bytes[46], bytes[47], bytes[48], bytes[49]);
        let r = ChunkKey { owner, owner_len, file_id: fid, chunk_index };
        proof {
            assert(r@.owner =~= bytes@.take(29));
            assert(r@.file_id =~= bytes@.subrange(30, 46));
            assert(bytes@.subrange(46, 50) =~= seq![bytes@[46], bytes@[47], bytes@[48], bytes@[49]]);
            lemma_u32_be_inverse(bytes[46], bytes[47], bytes[48], bytes[49]);
            assert(chunk_key_bytes(r@) =~= bytes@);
        }
        r
    }
}

/// Packing a chunk key and reading it back gives the key again.
pub proof fn lemma_chunk_key_roundtrip(k: ChunkKeyV)
    requires
        k.owner.len() == 29,
        k.file_id.len() == FILE_ID_LEN,
    ensures
        chunk_key_bytes(k).len() == 50,
        chunk_key_bytes(k).take(29) == k.owner,
        chunk_key_bytes(k)[29] == k.owner_len,
        chunk_key_bytes(k).subrange(30, 46) == k.file_id,
        u32_from_be_bytes(chunk_key_bytes(k).subrange(46, 50)) == k.chunk_index,
{
    let b = chunk_key_bytes(k);
    assert(b.take(29) =~= k.owner);
    assert(b.subrange(30, 46) =~= k.file_id);
    assert(b.subrange(46, 50) =~= u32_be_bytes(k.chunk_index));
    crate::shared::bytes::lemma_u32_be_roundtrip(k.chunk_index);
}

/// The raw bytes of one stored chunk.
#[derive(Debug)]
pub struct ChunkValue(pub Vec<u8>);

impl View for ChunkValue {
    type V = Seq<u8>;

    open spec fn view(&self) -> Seq<u8> {
        self.0@
    }
}

impl Clone for ChunkValue {
    fn clone(&self) -> (r: Self)
        ensures
            r@ == self@,
    {
        ChunkValue(self.0.clone())
    }
}

impl ChunkValue {
    /// A chunk value is stored as its bytes, unchanged.
    pub fn to_bytes(&self) -> (r: Vec<u8>)
        ensures
            r@ == self@,
    {
        self.0.clone()
    }

    pub fn from_bytes(bytes: Vec<u8>) -> (r: ChunkValue)
        ensures
            r@ == bytes@,
    {
        ChunkValue(bytes)
    }
}

} // verus!
