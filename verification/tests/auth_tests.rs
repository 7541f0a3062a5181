//! The capability-token signature scheme: round trips, bit flips, the
//! canonical message, and the directory fee schedule.

use hmac::{KeyInit, Mac};
use sha2::Sha256;

use vault_core::directory::payments::SignerMethods as DirSignerMethods;
use vault_core::directory::types::{SignerMethods as FlatSignerMethods, UserState};
use vault_core::shared::auth::{
    sign_download_token, sign_token, verify_download_token, verify_token,
};
use vault_core::shared::types::{DownloadToken, FileId, PaymentType, Principal, UploadToken};

const SECRET: &[u8] = b"v1_shared_secret_for_vault_core";

fn pr(b: u8) -> Principal {
    Principal::try_from_slice(&[b; 29]).unwrap()
}

fn sample_upload_token() -> UploadToken {
    UploadToken {
        upload_id: vec![1u8; 16],
        file_id: FileId { owner: pr(1), id: vec![1u8; 16] },
        bucket_id: pr(0xb1),
        directory_id: pr(0xd1),
        expires_at: 0x1122334455667788,
        allowed_chunks: vec![0, 1, 7],
        sig: Vec::new(),
    }
}

fn sample_download_token() -> DownloadToken {
    DownloadToken {
        file_id: FileId { owner: pr(1), id: vec![1u8; 16] },
        bucket_id: pr(0xb1),
        directory_id: pr(0xd1),
        expires_at: 0x1122334455667788,
        sig: Vec::new(),
    }
}

#[test]
fn test_sign_verify_roundtrip() {
    let mut token = sample_upload_token();
    sign_token(&mut token, SECRET);
    assert!(verify_token(&token, SECRET));
    // A different secret rejects the same token.
    assert!(!verify_token(&token, b"another_secret_of_32_bytes______"));
}

#[test]
fn test_flipping_any_signed_field_breaks_verification() {
    let mut token = sample_upload_token();
    sign_token(&mut token, SECRET);

    let mut t = token.clone();
    t.upload_id[0] ^= 1;
    assert!(!verify_token(&t, SECRET));

    let mut t = token.clone();
    t.file_id.id[15] ^= 0x80;
    assert!(!verify_token(&t, SECRET));

    let mut t = token.clone();
    t.expires_at ^= 1;
    assert!(!verify_token(&t, SECRET));

    let mut t = token.clone();
    t.allowed_chunks[2] ^= 1;
    assert!(!verify_token(&t, SECRET));

    let mut t = token.clone();
    t.allowed_chunks.push(2);
    assert!(!verify_token(&t, SECRET));

    let mut t = token.clone();
    t.sig[0] ^= 1;
    assert!(!verify_token(&t, SECRET));
}

#[test]
fn test_signature_is_hmac_over_canonical_message() {
    let mut token = sample_upload_token();
    sign_token(&mut token, SECRET);

    // Rebuild the canonical message by hand: upload id, owner, file id,
    // bucket, directory, big-endian expiry, then each chunk big-endian.
    let mut msg: Vec<u8> = Vec::new();
    msg.extend_from_slice(&token.upload_id);
    msg.extend_from_slice(token.file_id.owner.as_slice());
    msg.extend_from_slice(&token.file_id.id);
    msg.extend_from_slice(token.bucket_id.as_slice());
    msg.extend_from_slice(token.directory_id.as_slice());
    msg.extend_from_slice(&token.expires_at.to_be_bytes());
    for &chunk in &token.allowed_chunks {
        msg.extend_from_slice(&chunk.to_be_bytes());
    }
    let mut mac = hmac::Hmac::<Sha256>::new_from_slice(SECRET).unwrap();
    mac.update(&msg);
    let expected = mac.finalize().into_bytes().as_slice().to_vec();
    assert_eq!(token.sig, expected);
    assert_eq!(token.sig.len(), 32);
}

#[test]
fn test_download_token_roundtrip() {
    let mut token = sample_download_token();
    sign_download_token(&mut token, SECRET);
    assert!(verify_download_token(&token, SECRET));

    let mut t = token.clone();
    t.expires_at ^= 1;
    assert!(!verify_download_token(&t, SECRET));

    let mut t = token.clone();
    t.sig[31] ^= 1;
    assert!(!verify_download_token(&t, SECRET));

    // The download message omits the upload id and chunk list.
    let mut msg: Vec<u8> = Vec::new();
    msg.extend_from_slice(token.file_id.owner.as_slice());
    msg.extend_from_slice(&token.file_id.id);
    msg.extend_from_slice(token.bucket_id.as_slice());
    msg.extend_from_slice(token.directory_id.as_slice());
    msg.extend_from_slice(&token.expires_at.to_be_bytes());
    let mut mac = hmac::Hmac::<Sha256>::new_from_slice(SECRET).unwrap();
    mac.update(&msg);
    assert_eq!(token.sig, mac.finalize().into_bytes().as_slice().to_vec());
}

#[test]
fn test_directory_fee_table() {
    let icp = pr(0x20);
    let other = pr(0x21);
    let start = DirSignerMethods::StartUpload;
    let put = DirSignerMethods::PutChunk;
    assert_eq!(start.fee(&PaymentType::CallerPaysTokens { ledger: icp.clone() }, &icp), 1_000_000);
    assert_eq!(start.fee(&PaymentType::PatronPaysTokens { ledger: icp.clone() }, &icp), 1_000_000);
    assert_eq!(start.fee(&PaymentType::CallerPaysTokens { ledger: other.clone() }, &icp), 100_000);
    assert_eq!(start.fee(&PaymentType::AttachedCycles, &icp), 100_000);
    assert_eq!(put.fee(&PaymentType::CallerPaysTokens { ledger: icp.clone() }, &icp), 300_000);
    assert_eq!(put.fee(&PaymentType::PatronPaysCycles, &icp), 30_000);
}

#[test]
fn test_flat_fee_table() {
    assert_eq!(FlatSignerMethods::StartUpload.fee(), 1_000_000);
    assert_eq!(FlatSignerMethods::PutChunk.fee(), 100_000);
}

#[test]
fn test_user_state_default() {
    let st = UserState::default();
    assert_eq!(st.used_bytes, 0);
    assert_eq!(st.quota_bytes, 10 * 1024 * 1024 * 1024);
}

#[test]
fn test_principal_bounds() {
    assert!(Principal::try_from_slice(&[0u8; 29]).is_some());
    assert!(Principal::try_from_slice(&[0u8; 30]).is_none());
    let anon = Principal::anonymous();
    assert_eq!(anon.as_slice(), &[4u8]);
    assert!(pr(1) == pr(1));
    assert!(pr(1) != pr(2));
}
