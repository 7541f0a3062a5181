//! Bucket behaviour: the packed chunk key, the ordered store, the admin
//! gate, and the write path's own failure modes.

use vault_core::bucket::api::{settle_withdraw, Bucket};
use vault_core::bucket::config::{Config as BucketConfig, InitArgs, UpgradeArgs};
use vault_core::bucket::errors::BucketError;
use vault_core::bucket::payments::SignerMethods as BucketSignerMethods;
use vault_core::bucket::types::{ChunkKey, ChunkValue};
use vault_core::shared::auth::sign_token;
use vault_core::shared::bytes::{is_prefix_of, lex_lt_bytes, u32_to_be, u64_to_be};
use vault_core::shared::types::{FileId, PaymentType, Principal, UploadToken};
use vault_core::store::Store;

const SECRET: &[u8] = b"v1_shared_secret_for_vault_core";
const NOW: u64 = 1_700_000_000_000_000_000;

fn pr(b: u8) -> Principal {
    Principal::try_from_slice(&[b; 29]).unwrap()
}

fn new_bucket(id: Principal) -> Bucket {
    Bucket::new(
        id,
        BucketConfig {
            admins: Some(vec![pr(9)]),
            read_only: Some(false),
            shared_secret: Some(SECRET.to_vec()),
            icp_ledger: None,
            ckusdc_ledger: None,
        },
    )
}

/// A signed token for one file and chunk set, minted directly for tests.
fn signed_token(bucket_id: &Principal, id: Vec<u8>, chunks: Vec<u32>) -> UploadToken {
    let mut token = UploadToken {
        upload_id: id.clone(),
        file_id: FileId { owner: pr(1), id },
        bucket_id: bucket_id.clone(),
        directory_id: Principal::try_from_slice(&[0xd1]).unwrap(),
        expires_at: NOW + 3600_000_000_000,
        allowed_chunks: chunks,
        sig: Vec::new(),
    };
    sign_token(&mut token, SECRET);
    token
}

#[test]
fn test_bucket_stat() {
    let bucket = new_bucket(pr(0xb1));
    let res: String = bucket.stat();
    assert!(res.contains("Chunks stored"));
    assert_eq!(res, "Chunks stored: 0");
}

#[test]
fn test_put_then_get_roundtrip() {
    let bucket_id = pr(0xb1);
    let mut bucket = new_bucket(bucket_id.clone());
    let token = signed_token(&bucket_id, vec![3u8; 16], vec![0, 1]);
    let data = vec![42u8; 100];
    assert!(matches!(bucket.put_chunk(&token, 0, data.clone(), Ok(()), NOW), Ok(100)));
    // Overwriting the same key is idempotent on the content.
    assert!(matches!(bucket.put_chunk(&token, 0, data.clone(), Ok(()), NOW), Ok(100)));
    assert_eq!(bucket.stat(), "Chunks stored: 1");
}

#[test]
fn test_put_chunk_payment_first() {
    let bucket_id = pr(0xb1);
    let mut bucket = new_bucket(bucket_id.clone());
    let token = signed_token(&bucket_id, vec![3u8; 16], vec![0]);
    let res = bucket.put_chunk(&token, 0, vec![1], Err("broke".to_string()), NOW);
    match res {
        Err(BucketError::PaymentFailed(m)) => assert_eq!(m, "broke"),
        other => panic!("expected PaymentFailed, got {:?}", other),
    }
}

#[test]
fn test_put_chunk_invalid_signature() {
    let bucket_id = pr(0xb1);
    let mut bucket = new_bucket(bucket_id.clone());
    let mut token = signed_token(&bucket_id, vec![3u8; 16], vec![0]);
    // Flip one byte of the signed expiry: the signature no longer matches.
    token.expires_at += 1;
    let res = bucket.put_chunk(&token, 0, vec![1], Ok(()), NOW);
    assert!(matches!(res, Err(BucketError::InvalidSignature)));
}

#[test]
fn test_put_chunk_invalid_file_id() {
    let bucket_id = pr(0xb1);
    let mut bucket = new_bucket(bucket_id.clone());
    // A file id that is not 16 bytes is refused after the signature checks.
    let token = signed_token(&bucket_id, vec![3u8; 3], vec![0]);
    let res = bucket.put_chunk(&token, 0, vec![1], Ok(()), NOW);
    assert!(matches!(res, Err(BucketError::InvalidFileId)));
}

#[test]
fn test_read_only_mode() {
    let bucket_id = pr(0xb1);
    let mut bucket = new_bucket(bucket_id.clone());
    // Only an admin (or a controller) may flip read-only mode.
    assert!(matches!(
        bucket.admin_set_read_only(&pr(5), false, true),
        Err(BucketError::AdminOnly)
    ));
    bucket.admin_set_read_only(&pr(9), false, true).expect("set read only failed");
    let token = signed_token(&bucket_id, vec![3u8; 16], vec![0]);
    // Writes are rejected after payment, intentionally.
    let res = bucket.put_chunk(&token, 0, vec![1], Ok(()), NOW);
    assert!(matches!(res, Err(BucketError::ReadOnly)));
    // A controller may flip it back.
    bucket.admin_set_read_only(&pr(5), true, false).expect("controller flip failed");
    assert!(bucket.put_chunk(&token, 0, vec![1], Ok(()), NOW).is_ok());
}

#[test]
fn test_delete_file_keeps_other_files() {
    let bucket_id = pr(0xb1);
    let mut bucket = new_bucket(bucket_id.clone());
    let token_a = signed_token(&bucket_id, vec![3u8; 16], vec![0, 1]);
    let token_b = signed_token(&bucket_id, vec![4u8; 16], vec![0]);
    bucket.put_chunk(&token_a, 0, vec![1], Ok(()), NOW).expect("put failed");
    bucket.put_chunk(&token_a, 1, vec![2], Ok(()), NOW).expect("put failed");
    bucket.put_chunk(&token_b, 0, vec![3], Ok(()), NOW).expect("put failed");
    assert_eq!(bucket.stat(), "Chunks stored: 3");

    bucket.delete_file(&token_a.file_id).expect("delete failed");
    assert_eq!(bucket.stat(), "Chunks stored: 1");
    // Deletion is idempotent.
    bucket.delete_file(&token_a.file_id).expect("second delete failed");
    assert_eq!(bucket.stat(), "Chunks stored: 1");
    // A malformed file id is refused.
    let bad = FileId { owner: pr(1), id: vec![1, 2, 3] };
    assert!(matches!(bucket.delete_file(&bad), Err(BucketError::InvalidFileId)));
}

#[test]
fn test_admin_withdraw_gate() {
    let bucket = new_bucket(pr(0xb1));
    assert!(bucket.authorize_withdraw(&pr(9), false).is_ok());
    assert!(matches!(
        bucket.authorize_withdraw(&pr(5), false),
        Err(BucketError::AdminOnly)
    ));
    assert!(bucket.authorize_withdraw(&pr(5), true).is_ok());
    assert!(settle_withdraw(Ok(())).is_ok());
    match settle_withdraw(Err("call error".to_string())) {
        Err(BucketError::PaymentFailed(m)) => assert_eq!(m, "call error"),
        other => panic!("expected PaymentFailed, got {:?}", other),
    }
}

#[test]
fn test_chunk_key_layout() {
    let owner = Principal::try_from_slice(&[7u8, 8u8]).unwrap();
    let key = ChunkKey::new(&owner, &[5u8; 16], 0x01020304);
    let bytes = key.to_bytes();
    assert_eq!(bytes.len(), 50);
    // Owner padded to 29 bytes, its length at offset 29, then the id, then
    // the big-endian index.
    assert_eq!(&bytes[0..2], &[7, 8]);
    assert_eq!(bytes[2..29], [0u8; 27]);
    assert_eq!(bytes[29], 2);
    assert_eq!(&bytes[30..46], &[5u8; 16]);
    assert_eq!(&bytes[46..50], &[1, 2, 3, 4]);

    let back = ChunkKey::from_bytes(bytes.as_slice());
    assert_eq!(back.owner, key.owner);
    assert_eq!(back.owner_len, 2);
    assert_eq!(back.file_id, [5u8; 16]);
    assert_eq!(back.chunk_index, 0x01020304);
}

#[test]
fn test_chunk_keys_order_by_index() {
    let owner = pr(1);
    let k1 = ChunkKey::new(&owner, &[5u8; 16], 1).to_bytes();
    let k2 = ChunkKey::new(&owner, &[5u8; 16], 2).to_bytes();
    let k256 = ChunkKey::new(&owner, &[5u8; 16], 256).to_bytes();
    // Big-endian indices make byte order agree with numeric order.
    assert!(lex_lt_bytes(&k1, &k2));
    assert!(lex_lt_bytes(&k2, &k256));
    assert!(!lex_lt_bytes(&k256, &k1));
    // All chunks of one file share the 46-byte prefix.
    assert_eq!(&k1[0..46], &k256[0..46]);
    assert!(is_prefix_of(&k1, &k1[0..46]));
}

#[test]
fn test_store_orders_keys() {
    let mut store: Store<ChunkValue> = Store::new();
    store.insert(vec![2, 0], ChunkValue(vec![20]));
    store.insert(vec![1], ChunkValue(vec![10]));
    store.insert(vec![3], ChunkValue(vec![30]));
    store.insert(vec![1], ChunkValue(vec![11]));
    assert_eq!(store.len(), 3);
    // Iteration enumerates keys in ascending byte order; a re-insert
    // replaced the value in place.
    assert_eq!(store.entry_at(0).0, vec![1u8]);
    assert_eq!(store.entry_at(0).1 .0, vec![11u8]);
    assert_eq!(store.entry_at(1).0, vec![2u8, 0u8]);
    assert_eq!(store.entry_at(2).0, vec![3u8]);
    assert_eq!(store.get(&[1]).unwrap().0, vec![11]);
    assert!(store.get(&[9]).is_none());
    let removed = store.remove(&[2, 0]).unwrap();
    assert_eq!(removed.0, vec![20]);
    assert!(store.remove(&[2, 0]).is_none());
    assert_eq!(store.len(), 2);
}

#[test]
fn test_store_remove_prefix() {
    let mut store: Store<ChunkValue> = Store::new();
    store.insert(vec![1, 0], ChunkValue(vec![1]));
    store.insert(vec![1, 1], ChunkValue(vec![2]));
    store.insert(vec![1, 2], ChunkValue(vec![3]));
    store.insert(vec![2, 0], ChunkValue(vec![4]));
    store.insert(vec![0, 9], ChunkValue(vec![5]));
    store.remove_prefix(&[1]);
    assert_eq!(store.len(), 2);
    assert!(store.get(&[1, 1]).is_none());
    assert_eq!(store.get(&[0, 9]).unwrap().0, vec![5]);
    assert_eq!(store.get(&[2, 0]).unwrap().0, vec![4]);
}

#[test]
fn test_bucket_fee_table() {
    let icp = pr(0x20);
    let other = pr(0x21);
    let m = BucketSignerMethods::PutChunk;
    assert_eq!(m.fee(&PaymentType::CallerPaysTokens { ledger: icp.clone() }, &icp), 300_000);
    assert_eq!(m.fee(&PaymentType::PatronPaysTokens { ledger: icp.clone() }, &icp), 300_000);
    assert_eq!(m.fee(&PaymentType::CallerPaysTokens { ledger: other }, &icp), 30_000);
    assert_eq!(m.fee(&PaymentType::AttachedCycles, &icp), 30_000);
    assert_eq!(m.fee(&PaymentType::CallerPaysCycles, &icp), 30_000);
    assert_eq!(m.fee(&PaymentType::PatronPaysCycles, &icp), 30_000);
}

#[test]
fn test_bucket_config_lifecycle() {
    let config = BucketConfig::from(InitArgs { admins: vec![pr(9)], shared_secret: SECRET.to_vec() });
    assert_eq!(config.read_only, Some(false));
    assert_eq!(config.shared_secret.as_deref(), Some(SECRET));
    let mut config = config;
    config.apply_upgrade(UpgradeArgs { admins: None, shared_secret: Some(vec![1, 2, 3]) });
    assert_eq!(config.shared_secret, Some(vec![1, 2, 3]));
    assert!(config.admins.is_some());
}

#[test]
fn test_stat_renders_multi_digit_counts() {
    let bucket_id = pr(0xb1);
    let mut bucket = new_bucket(bucket_id.clone());
    let chunks: Vec<u32> = (0..12).collect();
    let token = signed_token(&bucket_id, vec![6u8; 16], chunks);
    for i in 0..12u32 {
        bucket.put_chunk(&token, i, vec![i as u8], Ok(()), NOW).expect("put failed");
    }
    assert_eq!(bucket.stat(), "Chunks stored: 12");
}

#[test]
fn test_byte_encodings() {
    assert_eq!(u32_to_be(0x01020304), vec![1, 2, 3, 4]);
    assert_eq!(u64_to_be(0x0102030405060708), vec![1, 2, 3, 4, 5, 6, 7, 8]);
    assert_eq!(u64_to_be(0), vec![0; 8]);
    assert!(lex_lt_bytes(&[1, 2], &[1, 2, 0]));
    assert!(!lex_lt_bytes(&[1, 2], &[1, 2]));
    assert!(is_prefix_of(&[1, 2, 3], &[1, 2]));
    assert!(!is_prefix_of(&[1, 2], &[1, 2, 3]));
}
