//! Deterministic HMAC-SHA256 signing and verification of upload and download
//! tokens over a canonical byte encoding: every signed field in a fixed
//! order, integers big-endian, the signature itself excluded.

use vstd::prelude::*;

use hmac::KeyInit;
use hmac::Mac;

use crate::shared::bytes::{u32_be_bytes, u32_to_be, u64_be_bytes, u64_to_be};
use crate::shared::types::{DownloadToken, DownloadTokenV, UploadToken, UploadTokenV};

verus! {

/// The HMAC-SHA256 of `msg` under `key`. The function of key and message
/// computed by the outside crates; named, not restated.
pub uninterp spec fn hmac_sha256(key: Seq<u8>, msg: Seq<u8>) -> Seq<u8>;

/// Relies on `hmac::Hmac<sha2::Sha256>`: `new_from_slice` accepts keys of
/// any length, and `finalize` yields the 32-byte HMAC-SHA256 tag, a function
/// of key and message alone.
#[verifier::external_body]
pub(crate) fn hmac_sha256_tag(key: &[u8], msg: &[u8]) -> (r: Vec<u8>)
    ensures
        r@ == hmac_sha256(key@, msg@),
        r@.len() == 32,
{
    let mut mac = hmac::Hmac::<sha2::Sha256>::new_from_slice(key)
        .expect("HMAC accepts keys of any length");
    mac.update(msg);
    mac.finalize().into_bytes().as_slice().to_vec()
}

/// Relies on `hmac::Hmac<sha2::Sha256>`: `verify_slice` succeeds exactly
/// when the tag equals the 32-byte HMAC-SHA256 of the message, compared in
/// constant time.
#[verifier::external_body]
pub(crate) fn hmac_sha256_check(key: &[u8], msg: &[u8], tag: &[u8]) -> (r: bool)
    ensures
        r <==> tag@ == hmac_sha256(key@, msg@),
{
    let mut mac = hmac::Hmac::<sha2::Sha256>::new_from_slice(key)
        .expect("HMAC accepts keys of any length");
    mac.update(msg);
    mac.verify_slice(tag).is_ok()
}

/// The big-endian concatenation of a list of chunk indices.
pub open spec fn chunks_be(chunks: Seq<u32>) -> Seq<u8>
    decreases chunks.len(),
{
    if chunks.len() == 0 {
        Seq::empty()
    } else {
        u32_be_bytes(chunks[0]) + chunks_be(chunks.skip(1))
    }
}

pub proof fn lemma_chunks_be_push(chunks: Seq<u32>, x: u32)
    ensures
        chunks_be(chunks.push(x)) == chunks_be(chunks) + u32_be_bytes(x),
    decreases chunks.len(),
{
    let s2 = chunks.push(x);
    if chunks.len() == 0 {
        assert(s2[0] == x);
        assert(s2.skip(1) =~= Seq::<u32>::empty());
        assert(chunks_be(Seq::<u32>::empty()) =~= Seq::<u8>::empty());
        assert(chunks_be(s2) =~= chunks_be(chunks) + u32_be_bytes(x));
    } else {
        assert(s2[0] == chunks[0]);
        assert(s2.skip(1) =~= chunks.skip(1).push(x));
        lemma_chunks_be_push(chunks.skip(1), x);
        assert(chunks_be(s2) =~= chunks_be(chunks) + u32_be_bytes(x));
    }
}

/// The canonical signing input of an upload token: upload id, file owner,
/// file id, bucket, directory, big-endian expiry, then each allowed chunk
/// index big-endian. The signature is excluded.
pub open spec fn upload_token_msg(t: UploadTokenV) -> Seq<u8> {
    t.upload_id + t.file_id.owner + t.file_id.id + t.bucket_id + t.directory_id + u64_be_bytes(
        t.expires_at,
    ) + chunks_be(t.allowed_chunks)
}

/// The canonical signing input of a download token: as for an upload token,
/// without the upload id and the chunk list.
pub open spec fn download_token_msg(t: DownloadTokenV) -> Seq<u8> {
    t.file_id.owner + t.file_id.id + t.bucket_id + t.directory_id + u64_be_bytes(t.expires_at)
}

/// A token signature is valid when it is the HMAC of the canonical message
/// under the shared secret.
pub open spec fn upload_sig_valid(t: UploadTokenV, secret: Seq<u8>) -> bool {
    t.sig == hmac_sha256(secret, upload_token_msg(t))
}

pub open spec fn download_sig_valid(t: DownloadTokenV, secret: Seq<u8>) -> bool {
    t.sig == hmac_sha256(secret, download_token_msg(t))
}

/// Builds the canonical signing input of an upload token.
fn upload_token_message(t: &UploadToken) -> (r: Vec<u8>)
    ensures
        r@ == upload_token_msg(t@),
{
    let mut r: Vec<u8> = Vec::new();
    r.extend_from_slice(t.upload_id.as_slice());
    r.extend_from_slice(t.file_id.owner.as_slice());
    r.extend_from_slice(t.file_id.id.as_slice());
    r.extend_from_slice(t.bucket_id.as_slice());
    r.extend_from_slice(t.directory_id.as_slice());
    let expiry = u64_to_be(t.expires_at);
    r.extend_from_slice(expiry.as_slice());
    let ghost base = r@;
    proof {
        assert(chunks_be(t.allowed_chunks@.take(0)) =~= Seq::<u8>::empty());
        assert(r@ =~= base + chunks_be(t.allowed_chunks@.take(0)));
    }
    let mut i: usize = 0;
    while i < t.allowed_chunks.len()
        invariant
            0 <= i <= t.allowed_chunks@.len(),
            r@ == base + chunks_be(t.allowed_chunks@.take(i as int)),
        decreases t.allowed_chunks@.len() - i,
    {
        let chunk = u32_to_be(t.allowed_chunks[i]);
        r.extend_from_slice(chunk.as_slice());
        proof {
            assert(t.allowed_chunks@.take(i + 1) =~= t.allowed_chunks@.take(i as int).push(
                t.allowed_chunks@[i as int],
            ));
            lemma_chunks_be_push(t.allowed_chunks@.take(i as int), t.allowed_chunks@[i as int]);
            assert(r@ =~= base + chunks_be(t.allowed_chunks@.take(i + 1)));
        }
        i = i + 1;
    }
    proof {
        assert(t.allowed_chunks@.take(t.allowed_chunks@.len() as int) =~= t.allowed_chunks@);
        assert(r@ =~= upload_token_msg(t@));
    }
    r
}

/// Builds the canonical signing input of a download token.
fn download_token_message(t: &DownloadToken) -> (r: Vec<u8>)
    ensures
        r@ == download_token_msg(t@),
{
    let mut r: Vec<u8> = Vec::new();
    r.extend_from_slice(t.file_id.owner.as_slice());
    r.extend_from_slice(t.file_id.id.as_slice());
    r.extend_from_slice(t.bucket_id.as_slice());
    r.extend_from_slice(t.directory_id.as_slice());
    let expiry = u64_to_be(t.expires_at);
    r.extend_from_slice(expiry.as_slice());
    proof {
        assert(r@ =~= download_token_msg(t@));
    }
    r
}

/// Signs an upload token: every field is kept and the signature becomes the
/// HMAC of the canonical message under `secret`.
pub fn sign_token(token: &mut UploadToken, secret: &[u8])
    ensures
        final(token)@ == (UploadTokenV {
            sig: hmac_sha256(secret@, upload_token_msg(old(token)@)),
            ..old(token)@
        }),
        upload_sig_valid(final(token)@, secret@),
{
    let msg = upload_token_message(token);
    let sig = hmac_sha256_tag(secret, msg.as_slice());
    token.sig = sig;
}

/// Accepts an upload token exactly when its signature is the HMAC of the
/// canonical message under `secret`.
pub fn verify_token(token: &UploadToken, secret: &[u8]) -> (r: bool)
    ensures
        r == upload_sig_valid(token@, secret@),
{
    let msg = upload_token_message(token);
    hmac_sha256_check(secret, msg.as_slice(), token.sig.as_slice())
}

/// Signs a download token over its canonical message.
pub fn sign_download_token(token: &mut DownloadToken, secret: &[u8])
    ensures
        final(token)@ == (DownloadTokenV {
            sig: hmac_sha256(secret@, download_token_msg(old(token)@)),
            ..old(token)@
        }),
        download_sig_valid(final(token)@, secret@),
{
    let msg = download_token_message(token);
    let sig = hmac_sha256_tag(secret, msg.as_slice());
    token.sig = sig;
}

/// Accepts a download token exactly when its signature is the HMAC of the
/// canonical message under `secret`.
pub fn verify_download_token(token: &DownloadToken, secret: &[u8]) -> (r: bool)
    ensures
        r == download_sig_valid(token@, secret@),
{
    let msg = download_token_message(token);
    hmac_sha256_check(secret, msg.as_slice(), token.sig.as_slice())
}

/// Signing never changes the canonical message, so a token signed with a
/// secret verifies under that same secret, whatever token and secret.
pub proof fn lemma_sign_verify_roundtrip(t: UploadTokenV, secret: Seq<u8>)
    ensures
        upload_sig_valid(
            UploadTokenV { sig: hmac_sha256(secret, upload_token_msg(t)), ..t },
            secret,
        ),
{
    let signed = UploadTokenV { sig: hmac_sha256(secret, upload_token_msg(t)), ..t };
    assert(upload_token_msg(signed) == upload_token_msg(t));
}

/// The download-token counterpart of the sign-verify round trip.
pub proof fn lemma_sign_verify_roundtrip_download(t: DownloadTokenV, secret: Seq<u8>)
    ensures
        download_sig_valid(
            DownloadTokenV { sig: hmac_sha256(secret, download_token_msg(t)), ..t },
            secret,
        ),
{
    let signed = DownloadTokenV { sig: hmac_sha256(secret, download_token_msg(t)), ..t };
    assert(download_token_msg(signed) == download_token_msg(t));
}

} // verus!
