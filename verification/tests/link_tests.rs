//! Share links: anonymous resolution, revocation, expiry.

use vault_core::bucket::api::Bucket;
use vault_core::bucket::config::Config as BucketConfig;
use vault_core::directory::api::Directory;
use vault_core::directory::config::Config as DirConfig;
use vault_core::directory::errors::DirectoryError;
use vault_core::shared::types::Principal;

const SECRET: &[u8] = b"v1_shared_secret_for_vault_core";
const NOW: u64 = 1_700_000_000_000_000_000;

fn pr(b: u8) -> Principal {
    Principal::try_from_slice(&[b; 29]).unwrap()
}

fn new_directory() -> Directory {
    Directory::new(
        Principal::try_from_slice(&[0xd1]).unwrap(),
        DirConfig {
            admins: Some(vec![pr(9)]),
            rate_per_gb_per_month: Some(100),
            shared_secret: Some(SECRET.to_vec()),
            icp_ledger: None,
            ckusdc_ledger: None,
        },
    )
}

fn new_bucket(id: Principal) -> Bucket {
    Bucket::new(
        id,
        BucketConfig {
            admins: Some(vec![pr(9)]),
            read_only: Some(false),
            shared_secret: Some(SECRET.to_vec()),
            icp_ledger: None,
            ckusdc_ledger: None,
        },
    )
}

#[test]
fn test_link_generation_and_access() {
    let mut directory = new_directory();
    let bucket_id = Principal::try_from_slice(&[0xb1]).unwrap();
    let mut bucket = new_bucket(bucket_id.clone());
    let owner = pr(1);

    directory
        .provision_bucket(&pr(9), false, bucket_id)
        .expect("provision failed");

    // 1. Upload a file.
    let session = directory
        .start_upload(
            &owner,
            "link.txt".to_string(),
            "text/plain".to_string(),
            10u64,
            Ok(()),
            NOW,
            1,
        )
        .expect("Start failed");
    let token = directory
        .get_upload_tokens(&owner, &session.upload_id, vec![0u32])
        .expect("Get tokens failed")[0]
        .clone();
    let chunk_data = vec![1, 2, 3, 4, 5, 6, 7, 8, 9, 0];
    bucket
        .put_chunk(&token, 0u32, chunk_data.clone(), Ok(()), NOW)
        .expect("put failed");
    directory
        .report_chunk_uploaded(&session.upload_id, 0u32)
        .expect("report failed");
    let meta = directory.commit_upload(&session.upload_id, NOW).expect("Commit failed");

    // 2. Create a share link with a one-hour TTL.
    let ttl_ns = 3600_000_000_000u64;
    let link_token = directory
        .create_share_link(&owner, &meta.file_id, ttl_ns, vec![7u8; 16], NOW)
        .unwrap_or_else(|e| panic!("Create link failed: {:?}", e));

    // 3. Resolve the link without any caller identity.
    let plan = directory
        .resolve_share_link(&link_token, NOW)
        .unwrap_or_else(|e| panic!("Resolve link failed: {:?}", e));

    // 4. Download using the resolved token.
    let bucket_token = plan.auth[0].token.clone();
    match bucket.get_chunk(&bucket_token, 0u32, NOW) {
        Ok(data) => assert_eq!(data, chunk_data),
        Err(e) => panic!("Download via link failed: {:?}", e),
    }

    // 5. The owner revokes the link.
    directory
        .revoke_share_link(&owner, &link_token)
        .expect("revoke failed");

    // 6. The link no longer resolves.
    let plan_res_fail = directory.resolve_share_link(&link_token, NOW);
    assert!(matches!(plan_res_fail, Err(DirectoryError::LinkNotFound)));
}

#[test]
fn test_link_expires() {
    let mut directory = new_directory();
    let bucket_id = Principal::try_from_slice(&[0xb1]).unwrap();
    let owner = pr(1);
    directory.provision_bucket(&pr(9), false, bucket_id).expect("provision failed");
    let session = directory
        .start_upload(&owner, "f".to_string(), "t".to_string(), 0, Ok(()), NOW, 1)
        .expect("start failed");
    directory
        .get_upload_tokens(&owner, &session.upload_id, vec![])
        .expect("tokens failed");
    let meta = directory.commit_upload(&session.upload_id, NOW).expect("commit failed");
    let link_token = directory
        .create_share_link(&owner, &meta.file_id, 10, vec![8u8; 16], NOW)
        .expect("create link failed");
    // Alive just before the expiry, dead at it.
    assert!(directory.resolve_share_link(&link_token, NOW + 9).is_ok());
    assert!(matches!(
        directory.resolve_share_link(&link_token, NOW + 10),
        Err(DirectoryError::LinkExpired)
    ));
}

#[test]
fn test_link_errors() {
    let mut directory = new_directory();
    let owner = pr(1);
    let session = directory
        .start_upload(&owner, "f".to_string(), "t".to_string(), 0, Ok(()), NOW, 1)
        .expect("start failed");
    let meta = directory.commit_upload(&session.upload_id, NOW).expect("commit failed");

    // An unknown token does not resolve.
    assert!(matches!(
        directory.resolve_share_link(&vec![1u8; 16], NOW),
        Err(DirectoryError::LinkNotFound)
    ));
    // Only the owner can mint a link.
    assert!(matches!(
        directory.create_share_link(&pr(2), &meta.file_id, 10, vec![7u8; 16], NOW),
        Err(DirectoryError::Unauthorized)
    ));
    // A link token needs at least 16 bytes of entropy.
    assert!(matches!(
        directory.create_share_link(&owner, &meta.file_id, 10, vec![7u8; 8], NOW),
        Err(DirectoryError::InvalidRequest(_))
    ));
    // Only the owner can revoke.
    let link_token = directory
        .create_share_link(&owner, &meta.file_id, 1000, vec![7u8; 16], NOW)
        .expect("create link failed");
    assert!(matches!(
        directory.revoke_share_link(&pr(2), &link_token),
        Err(DirectoryError::Unauthorized)
    ));
    // A link to a file with no recorded placement cannot build a plan.
    assert!(matches!(
        directory.resolve_share_link(&link_token, NOW),
        Err(DirectoryError::InvalidRequest(_))
    ));
}
