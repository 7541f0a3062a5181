//! The full upload/download path and the token-failure scenarios.

use vault_core::bucket::api::Bucket;
use vault_core::bucket::config::Config as BucketConfig;
use vault_core::bucket::errors::BucketError;
use vault_core::directory::api::Directory;
use vault_core::directory::config::Config as DirConfig;
use vault_core::directory::errors::DirectoryError;
use vault_core::shared::types::Principal;

const SECRET: &[u8] = b"v1_shared_secret_for_vault_core";
const NOW: u64 = 1_700_000_000_000_000_000;

fn pr(b: u8) -> Principal {
    Principal::try_from_slice(&[b; 29]).unwrap()
}

fn short_pr(bytes: &[u8]) -> Principal {
    Principal::try_from_slice(bytes).unwrap()
}

fn new_directory() -> Directory {
    Directory::new(
        short_pr(&[0xd1]),
        DirConfig {
            admins: Some(vec![pr(9)]),
            rate_per_gb_per_month: Some(100),
            shared_secret: Some(SECRET.to_vec()),
            icp_ledger: None,
            ckusdc_ledger: None,
        },
    )
}

fn new_bucket(id: Principal) -> Bucket {
    Bucket::new(
        id,
        BucketConfig {
            admins: Some(vec![pr(9)]),
            read_only: Some(false),
            shared_secret: Some(SECRET.to_vec()),
            icp_ledger: None,
            ckusdc_ledger: None,
        },
    )
}

#[test]
fn test_full_upload_flow() {
    let mut directory = new_directory();
    let bucket_id = short_pr(&[0xb1]);
    let mut bucket = new_bucket(bucket_id.clone());
    let caller = pr(1);

    directory
        .provision_bucket(&pr(9), false, bucket_id.clone())
        .expect("provision failed");

    // 1. Start upload.
    let session = directory
        .start_upload(
            &caller,
            "flow.txt".to_string(),
            "text/plain".to_string(),
            10u64,
            Ok(()),
            NOW,
            42,
        )
        .unwrap_or_else(|e| panic!("Start upload failed: {:?}", e));

    // 2. Get upload tokens.
    let tokens = directory
        .get_upload_tokens(&caller, &session.upload_id, vec![0u32])
        .unwrap_or_else(|e| panic!("Get tokens failed: {:?}", e));
    let token = tokens[0].clone();

    // 3. Put chunk in the bucket.
    let chunk_data = vec![1, 2, 3, 4, 5, 6, 7, 8, 9, 0];
    let put_res = bucket.put_chunk(&token, 0u32, chunk_data.clone(), Ok(()), NOW);
    assert!(matches!(put_res, Ok(10)));

    // 4. Report the chunk to the directory.
    directory
        .report_chunk_uploaded(&session.upload_id, 0u32)
        .expect("report failed");

    // 5. Commit.
    let meta = directory
        .commit_upload(&session.upload_id, NOW)
        .unwrap_or_else(|e| panic!("Commit failed: {:?}", e));
    assert_eq!(meta.name, "flow.txt");
    assert_eq!(meta.size_bytes, 10);
    assert_eq!(meta.chunk_count, 1);

    // 6. Get the download plan.
    let plan = directory
        .get_download_plan(&caller, &meta.file_id, NOW)
        .unwrap_or_else(|e| panic!("Get download plan failed: {:?}", e));
    assert_eq!(plan.locations.len(), 1);
    let bucket_token = plan
        .auth
        .iter()
        .find(|a| a.bucket_id == bucket_id)
        .expect("No auth for bucket")
        .token
        .clone();

    // 7. Download the chunk from the bucket.
    let chunk_res = bucket.get_chunk(&bucket_token, 0u32, NOW);
    match chunk_res {
        Ok(data) => assert_eq!(data, chunk_data),
        Err(e) => panic!("Get chunk failed: {:?}", e),
    }
}

#[test]
fn test_wrong_bucket_token() {
    let mut directory = new_directory();
    let bucket_a_id = short_pr(&[0xa1]);
    let bucket_b_id = short_pr(&[0xb2]);
    let mut bucket_b = new_bucket(bucket_b_id);
    let caller = pr(1);

    directory
        .provision_bucket(&pr(9), false, bucket_a_id)
        .expect("provision failed");
    let session = directory
        .start_upload(&caller, "a.txt".to_string(), "text/plain".to_string(), 10, Ok(()), NOW, 1)
        .expect("start failed");
    let token = directory
        .get_upload_tokens(&caller, &session.upload_id, vec![0])
        .expect("tokens failed")[0]
        .clone();

    // The token names bucket A; bucket B must refuse it.
    let res = bucket_b.put_chunk(&token, 0, vec![1, 2, 3], Ok(()), NOW);
    assert!(matches!(res, Err(BucketError::WrongBucket)));
}

#[test]
fn test_expired_token() {
    let mut directory = new_directory();
    let bucket_id = short_pr(&[0xb1]);
    let mut bucket = new_bucket(bucket_id.clone());
    let caller = pr(1);

    directory
        .provision_bucket(&pr(9), false, bucket_id)
        .expect("provision failed");
    let session = directory
        .start_upload(&caller, "a.txt".to_string(), "text/plain".to_string(), 10, Ok(()), NOW, 1)
        .expect("start failed");
    let token = directory
        .get_upload_tokens(&caller, &session.upload_id, vec![0])
        .expect("tokens failed")[0]
        .clone();

    // Past the token's expiry the bucket refuses it.
    let later = token.expires_at + 1;
    let res = bucket.put_chunk(&token, 0, vec![1, 2, 3], Ok(()), later);
    assert!(matches!(res, Err(BucketError::TokenExpired)));
}

#[test]
fn test_disallowed_chunk() {
    let mut directory = new_directory();
    let bucket_id = short_pr(&[0xb1]);
    let mut bucket = new_bucket(bucket_id.clone());
    let caller = pr(1);

    directory
        .provision_bucket(&pr(9), false, bucket_id)
        .expect("provision failed");
    let session = directory
        .start_upload(
            &caller,
            "a.txt".to_string(),
            "text/plain".to_string(),
            2 * 1024 * 1024,
            Ok(()),
            NOW,
            1,
        )
        .expect("start failed");
    let token = directory
        .get_upload_tokens(&caller, &session.upload_id, vec![0])
        .expect("tokens failed")[0]
        .clone();

    // The token only allows chunk 0.
    let res = bucket.put_chunk(&token, 1, vec![1, 2, 3], Ok(()), NOW);
    match res {
        Err(BucketError::ChunkNotAllowed(i)) => assert_eq!(i, 1),
        other => panic!("expected ChunkNotAllowed, got {:?}", other),
    }
}

#[test]
fn test_incomplete_commit() {
    let mut directory = new_directory();
    let caller = pr(1);

    // Three expected chunks, only one reported.
    let session = directory
        .start_upload(
            &caller,
            "big.bin".to_string(),
            "application/octet-stream".to_string(),
            3 * 1024 * 1024,
            Ok(()),
            NOW,
            1,
        )
        .expect("start failed");
    assert_eq!(session.expected_chunk_count, 3);
    directory
        .report_chunk_uploaded(&session.upload_id, 0)
        .expect("report failed");

    let res = directory.commit_upload(&session.upload_id, NOW);
    match res {
        Err(DirectoryError::UploadIncomplete { uploaded, expected }) => {
            assert_eq!(uploaded, 1);
            assert_eq!(expected, 3);
        }
        other => panic!("expected UploadIncomplete, got {:?}", other),
    }
}

#[test]
fn test_delete_cascade() {
    let mut directory = new_directory();
    let bucket_id = short_pr(&[0xb1]);
    let mut bucket = new_bucket(bucket_id.clone());
    let caller = pr(1);

    directory
        .provision_bucket(&pr(9), false, bucket_id.clone())
        .expect("provision failed");
    let session = directory
        .start_upload(&caller, "c.txt".to_string(), "text/plain".to_string(), 10, Ok(()), NOW, 1)
        .expect("start failed");
    let token = directory
        .get_upload_tokens(&caller, &session.upload_id, vec![0])
        .expect("tokens failed")[0]
        .clone();
    bucket
        .put_chunk(&token, 0, vec![1, 2, 3, 4, 5, 6, 7, 8, 9, 0], Ok(()), NOW)
        .expect("put failed");
    directory
        .report_chunk_uploaded(&session.upload_id, 0)
        .expect("report failed");
    let meta = directory
        .commit_upload(&session.upload_id, NOW)
        .expect("commit failed");

    // Before the delete the owner's usage covers the file.
    let usage = directory.get_usage(&caller, false, None);
    assert_eq!(usage.used_bytes, 10);
    let plan = directory
        .get_download_plan(&caller, &meta.file_id, NOW)
        .expect("plan failed");
    let dl_token = plan.auth[0].token.clone();

    // Delete: usage falls to zero and the named bucket clears the chunks.
    let (res, instruct) = directory.delete_file(&caller, &meta.file_id);
    res.expect("delete failed");
    let usage_after = directory.get_usage(&caller, false, None);
    assert_eq!(usage_after.used_bytes, 0);
    let target = instruct.expect("no bucket to instruct");
    assert!(target == bucket_id);
    bucket.delete_file(&meta.file_id).expect("bucket delete failed");

    let res = bucket.get_chunk(&dl_token, 0, NOW);
    assert!(matches!(res, Err(BucketError::ChunkNotFound)));
}

#[test]
fn test_chunk_count_matches_stored_chunks() {
    let mut directory = new_directory();
    let bucket_id = short_pr(&[0xb1]);
    let mut bucket = new_bucket(bucket_id.clone());
    let caller = pr(1);

    directory
        .provision_bucket(&pr(9), false, bucket_id)
        .expect("provision failed");
    let size = 3 * 1024 * 1024;
    let session = directory
        .start_upload(
            &caller,
            "three.bin".to_string(),
            "application/octet-stream".to_string(),
            size,
            Ok(()),
            NOW,
            1,
        )
        .expect("start failed");
    let token = directory
        .get_upload_tokens(&caller, &session.upload_id, vec![0, 1, 2])
        .expect("tokens failed")[0]
        .clone();
    for i in 0..3u32 {
        bucket
            .put_chunk(&token, i, vec![i as u8; 4], Ok(()), NOW)
            .expect("put failed");
        directory
            .report_chunk_uploaded(&session.upload_id, i)
            .expect("report failed");
    }
    let meta = directory
        .commit_upload(&session.upload_id, NOW)
        .expect("commit failed");
    assert_eq!(meta.chunk_count, 3);
    // The bucket holds exactly as many chunks as the metadata says.
    assert_eq!(bucket.stat(), "Chunks stored: 3");
}
