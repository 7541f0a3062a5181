//! Directory behaviour: sessions, quota, errors, the reaper and the
//! collector.

use vault_core::directory::api::{estimate_upload_cost, gc_due, settle_withdraw, Directory};
use vault_core::directory::billing::{calculate_reservation_cost, estimate_storage_cost};
use vault_core::directory::config::Config as DirConfig;
use vault_core::directory::errors::DirectoryError;
use vault_core::shared::types::Principal;

const SECRET: &[u8] = b"v1_shared_secret_for_vault_core";
const NOW: u64 = 1_700_000_000_000_000_000;
const HOUR_NS: u64 = 3_600_000_000_000;

fn pr(b: u8) -> Principal {
    Principal::try_from_slice(&[b; 29]).unwrap()
}

fn short_pr(bytes: &[u8]) -> Principal {
    Principal::try_from_slice(bytes).unwrap()
}

fn new_directory() -> Directory {
    Directory::new(
        short_pr(&[0xd1]),
        DirConfig {
            admins: Some(vec![pr(9)]),
            rate_per_gb_per_month: Some(100),
            shared_secret: Some(SECRET.to_vec()),
            icp_ledger: None,
            ckusdc_ledger: None,
        },
    )
}

#[test]
fn test_start_upload() {
    let mut directory = new_directory();
    let caller = pr(1);
    let res = directory.start_upload(
        &caller,
        "test.txt".to_string(),
        "text/plain".to_string(),
        1024u64,
        Ok(()),
        NOW,
        7,
    );
    match res {
        Ok(session) => {
            assert_eq!(session.name, "test.txt");
            assert_eq!(session.mime, "text/plain");
            assert_eq!(session.expected_size_bytes, 1024);
            assert_eq!(session.expected_chunk_count, 1);
            assert_eq!(session.chunk_size, 1024 * 1024);
            assert_eq!(session.upload_id.len(), 16);
            assert_eq!(session.expires_at_ns, NOW + HOUR_NS);
        }
        Err(e) => panic!("Start upload failed: {:?}", e),
    }
}

#[test]
fn test_list_files_empty() {
    let directory = new_directory();
    let caller = pr(1);
    let files = directory.list_files(&caller);
    assert!(files.is_empty());
}

#[test]
fn test_list_files_filters_by_owner() {
    let mut directory = new_directory();
    let alice = pr(1);
    let bob = pr(2);
    for (who, entropy) in [(&alice, 1u64), (&bob, 2u64), (&alice, 3u64)] {
        let session = directory
            .start_upload(who, "f".to_string(), "t".to_string(), 0, Ok(()), NOW, entropy)
            .expect("start failed");
        directory.commit_upload(&session.upload_id, NOW).expect("commit failed");
    }
    assert_eq!(directory.list_files(&alice).len(), 2);
    assert_eq!(directory.list_files(&bob).len(), 1);
}

#[test]
fn test_payment_failed() {
    let mut directory = new_directory();
    let res = directory.start_upload(
        &pr(1),
        "x".to_string(),
        "t".to_string(),
        10,
        Err("no funds".to_string()),
        NOW,
        1,
    );
    match res {
        Err(DirectoryError::PaymentFailed(m)) => assert_eq!(m, "no funds"),
        other => panic!("expected PaymentFailed, got {:?}", other),
    }
}

#[test]
fn test_quota_exceeded() {
    let mut directory = new_directory();
    let ten_gib: u64 = 10 * 1024 * 1024 * 1024;
    let res = directory.start_upload(
        &pr(1),
        "big".to_string(),
        "t".to_string(),
        ten_gib + 1,
        Ok(()),
        NOW,
        1,
    );
    match res {
        Err(DirectoryError::QuotaExceeded { used, requested, quota }) => {
            assert_eq!(used, 0);
            assert_eq!(requested, ten_gib + 1);
            assert_eq!(quota, ten_gib);
        }
        other => panic!("expected QuotaExceeded, got {:?}", other),
    }
}

#[test]
fn test_admin_set_quota_allows_more() {
    let mut directory = new_directory();
    let user = pr(1);
    let twenty_gib: u64 = 20 * 1024 * 1024 * 1024;
    directory
        .admin_set_quota(&pr(9), false, &user, twenty_gib)
        .expect("set quota failed");
    let usage = directory.get_usage(&pr(9), false, Some(&user));
    assert_eq!(usage.quota_bytes, twenty_gib);
    assert_eq!(usage.used_bytes, 0);
    let res = directory.start_upload(
        &user,
        "big".to_string(),
        "t".to_string(),
        15 * 1024 * 1024 * 1024,
        Ok(()),
        NOW,
        1,
    );
    assert!(res.is_ok());
    // A non-admin cannot change quotas.
    let res = directory.admin_set_quota(&pr(5), false, &user, 1);
    assert!(matches!(res, Err(DirectoryError::AdminOnly)));
}

#[test]
fn test_upload_session_not_found() {
    let mut directory = new_directory();
    let missing = vec![0u8; 16];
    assert!(matches!(
        directory.report_chunk_uploaded(&missing, 0),
        Err(DirectoryError::UploadSessionNotFound)
    ));
    assert!(matches!(
        directory.commit_upload(&missing, NOW),
        Err(DirectoryError::UploadSessionNotFound)
    ));
    assert!(matches!(
        directory.abort_upload(&pr(1), &missing),
        Err(DirectoryError::UploadSessionNotFound)
    ));
}

#[test]
fn test_abort_upload_owner_only() {
    let mut directory = new_directory();
    let owner = pr(1);
    let session = directory
        .start_upload(&owner, "a".to_string(), "t".to_string(), 10, Ok(()), NOW, 1)
        .expect("start failed");
    let res = directory.abort_upload(&pr(2), &session.upload_id);
    assert!(matches!(res, Err(DirectoryError::Unauthorized)));
    directory.abort_upload(&owner, &session.upload_id).expect("abort failed");
    // The session is gone.
    assert!(matches!(
        directory.report_chunk_uploaded(&session.upload_id, 0),
        Err(DirectoryError::UploadSessionNotFound)
    ));
}

#[test]
fn test_report_is_idempotent() {
    let mut directory = new_directory();
    let owner = pr(1);
    let session = directory
        .start_upload(
            &owner,
            "a".to_string(),
            "t".to_string(),
            2 * 1024 * 1024,
            Ok(()),
            NOW,
            1,
        )
        .expect("start failed");
    directory.report_chunk_uploaded(&session.upload_id, 0).expect("report failed");
    directory.report_chunk_uploaded(&session.upload_id, 0).expect("duplicate report failed");
    // Still incomplete: the duplicate was not counted twice.
    match directory.commit_upload(&session.upload_id, NOW) {
        Err(DirectoryError::UploadIncomplete { uploaded, expected }) => {
            assert_eq!(uploaded, 1);
            assert_eq!(expected, 2);
        }
        other => panic!("expected UploadIncomplete, got {:?}", other),
    }
    // An out-of-range index is accepted and ignored.
    directory.report_chunk_uploaded(&session.upload_id, 99).expect("report failed");
    match directory.commit_upload(&session.upload_id, NOW) {
        Err(DirectoryError::UploadIncomplete { uploaded, .. }) => assert_eq!(uploaded, 1),
        other => panic!("expected UploadIncomplete, got {:?}", other),
    }
}

#[test]
fn test_no_writable_buckets() {
    let mut directory = new_directory();
    let owner = pr(1);
    let session = directory
        .start_upload(&owner, "a".to_string(), "t".to_string(), 10, Ok(()), NOW, 1)
        .expect("start failed");
    let res = directory.get_upload_tokens(&owner, &session.upload_id, vec![0]);
    assert!(matches!(res, Err(DirectoryError::NoWritableBuckets)));
}

#[test]
fn test_placement_is_immutable() {
    let mut directory = new_directory();
    let owner = pr(1);
    let bucket_a = short_pr(&[0xa1]);
    let bucket_b = short_pr(&[0xa0]);
    directory.provision_bucket(&pr(9), false, bucket_a.clone()).expect("provision failed");
    let session = directory
        .start_upload(&owner, "a".to_string(), "t".to_string(), 10, Ok(()), NOW, 1)
        .expect("start failed");
    let t1 = directory
        .get_upload_tokens(&owner, &session.upload_id, vec![0])
        .expect("tokens failed")[0]
        .clone();
    assert!(t1.bucket_id == bucket_a);
    // A lexicographically smaller writable bucket appears; the placement
    // already recorded still wins.
    directory.provision_bucket(&pr(9), false, bucket_b).expect("provision failed");
    let t2 = directory
        .get_upload_tokens(&owner, &session.upload_id, vec![1])
        .expect("tokens failed")[0]
        .clone();
    assert!(t2.bucket_id == bucket_a);
}

#[test]
fn test_first_writable_bucket_in_ascending_order() {
    let mut directory = new_directory();
    let owner = pr(1);
    let low = short_pr(&[0x10]);
    let high = short_pr(&[0x20]);
    directory.provision_bucket(&pr(9), false, high).expect("provision failed");
    directory.provision_bucket(&pr(9), false, low.clone()).expect("provision failed");
    let session = directory
        .start_upload(&owner, "a".to_string(), "t".to_string(), 10, Ok(()), NOW, 1)
        .expect("start failed");
    let token = directory
        .get_upload_tokens(&owner, &session.upload_id, vec![0])
        .expect("tokens failed")[0]
        .clone();
    assert!(token.bucket_id == low);
}

#[test]
fn test_provision_bucket_admin_only_and_unique() {
    let mut directory = new_directory();
    let b = short_pr(&[0xb1]);
    assert!(matches!(
        directory.provision_bucket(&pr(5), false, b.clone()),
        Err(DirectoryError::AdminOnly)
    ));
    directory.provision_bucket(&pr(9), false, b.clone()).expect("provision failed");
    assert!(matches!(
        directory.provision_bucket(&pr(9), false, b),
        Err(DirectoryError::BucketAlreadyExists)
    ));
}

#[test]
fn test_reaper_removes_expired_sessions() {
    let mut directory = new_directory();
    let owner = pr(1);
    let s1 = directory
        .start_upload(&owner, "a".to_string(), "t".to_string(), 10, Ok(()), NOW, 1)
        .expect("start failed");
    let s2 = directory
        .start_upload(&owner, "b".to_string(), "t".to_string(), 10, Ok(()), NOW + 1, 2)
        .expect("start failed");
    // Past the first session's expiry, before the second's.
    directory.reap_expired_uploads(s1.expires_at_ns);
    assert!(matches!(
        directory.report_chunk_uploaded(&s1.upload_id, 0),
        Err(DirectoryError::UploadSessionNotFound)
    ));
    directory.report_chunk_uploaded(&s2.upload_id, 0).expect("live session reaped");
}

#[test]
fn test_garbage_collect_lists_orphans() {
    let mut directory = new_directory();
    let owner = pr(1);
    let bucket_id = short_pr(&[0xb1]);
    directory.provision_bucket(&pr(9), false, bucket_id.clone()).expect("provision failed");
    let session = directory
        .start_upload(&owner, "a".to_string(), "t".to_string(), 0, Ok(()), NOW, 1)
        .expect("start failed");
    directory
        .get_upload_tokens(&owner, &session.upload_id, vec![])
        .expect("tokens failed");
    let meta = directory.commit_upload(&session.upload_id, NOW).expect("commit failed");
    // While the file exists there is no orphan.
    assert!(directory.garbage_collect(NOW).is_empty());
    let (res, _) = directory.delete_file(&owner, &meta.file_id);
    res.expect("delete failed");
    // Now the recorded placement is an orphan; the collector names it.
    let orphans = directory.garbage_collect(NOW);
    assert_eq!(orphans.len(), 1);
    assert!(orphans[0].bucket == bucket_id);
    assert_eq!(orphans[0].file_id.id, meta.file_id.id);
    // Once the bucket is confirmed clear the placement is forgotten.
    assert!(directory.clear_placement(&meta.file_id));
    assert!(directory.garbage_collect(NOW).is_empty());
    assert!(!directory.clear_placement(&meta.file_id));
}

#[test]
fn test_get_usage_defaults() {
    let directory = new_directory();
    let usage = directory.get_usage(&pr(1), false, None);
    assert_eq!(usage.used_bytes, 0);
    assert_eq!(usage.quota_bytes, 10 * 1024 * 1024 * 1024);
}

#[test]
fn test_usage_tracks_commits_and_deletes() {
    let mut directory = new_directory();
    let owner = pr(1);
    let mut metas = Vec::new();
    for (size, entropy) in [(100u64, 1u64), (200, 2)] {
        let session = directory
            .start_upload(&owner, "f".to_string(), "t".to_string(), size, Ok(()), NOW, entropy)
            .expect("start failed");
        directory.report_chunk_uploaded(&session.upload_id, 0).expect("report failed");
        metas.push(directory.commit_upload(&session.upload_id, NOW).expect("commit failed"));
    }
    assert_eq!(directory.get_usage(&owner, false, None).used_bytes, 300);
    let (res, _) = directory.delete_file(&owner, &metas[0].file_id);
    res.expect("delete failed");
    assert_eq!(directory.get_usage(&owner, false, None).used_bytes, 200);
}

#[test]
fn test_get_file_meta_not_found() {
    let mut directory = new_directory();
    let owner = pr(1);
    let session = directory
        .start_upload(&owner, "a".to_string(), "t".to_string(), 0, Ok(()), NOW, 1)
        .expect("start failed");
    let fake = vault_core::shared::types::FileId {
        owner: pr(1),
        id: vec![9u8; 16],
    };
    assert!(matches!(
        directory.get_file_meta(&owner, &fake),
        Err(DirectoryError::FileNotFound)
    ));
    directory.commit_upload(&session.upload_id, NOW).expect("commit failed");
}

#[test]
fn test_billing_formulas() {
    let gib: u64 = 1024 * 1024 * 1024;
    // One GiB for a month: 93 cycles per byte-month.
    assert_eq!(estimate_storage_cost(gib, 30), 99_857_989_632);
    // Fifteen days of one byte: floor(93 * 15 / 30).
    assert_eq!(estimate_storage_cost(1, 15), 46);
    assert_eq!(estimate_storage_cost(0, 30), 0);
    assert_eq!(calculate_reservation_cost(gib), 99_857_989_632);
    assert_eq!(calculate_reservation_cost(10), 930);
    assert_eq!(estimate_upload_cost(10), 930);
}

#[test]
fn test_settle_withdraw_directory() {
    assert!(settle_withdraw(Ok(())).is_ok());
    match settle_withdraw(Err("ledger unreachable".to_string())) {
        Err(DirectoryError::TransferFailed(m)) => assert_eq!(m, "ledger unreachable"),
        other => panic!("expected TransferFailed, got {:?}", other),
    }
}

#[test]
fn test_gc_cadence() {
    assert!(gc_due(0));
    assert!(!gc_due(1));
    assert!(!gc_due(999));
    assert!(gc_due(1000));
    assert!(gc_due(2000));
}

#[test]
fn test_admin_set_pricing() {
    let mut directory = new_directory();
    assert!(matches!(
        directory.admin_set_pricing(&pr(5), false, 7),
        Err(DirectoryError::AdminOnly)
    ));
    directory.admin_set_pricing(&pr(9), false, 7).expect("set pricing failed");
    // A controller is accepted without being listed as admin.
    directory.admin_set_pricing(&pr(5), true, 8).expect("controller set pricing failed");
    assert!(directory.get_pricing().contains("payment"));
}

#[test]
fn test_authorize_withdraw() {
    let directory = new_directory();
    assert!(directory.authorize_withdraw(&pr(9), false).is_ok());
    assert!(matches!(
        directory.authorize_withdraw(&pr(5), false),
        Err(DirectoryError::AdminOnly)
    ));
    assert!(directory.authorize_withdraw(&pr(5), true).is_ok());
}

#[test]
fn test_file_too_large_for_chunking() {
    let mut directory = new_directory();
    let user = pr(1);
    directory
        .admin_set_quota(&pr(9), false, &user, u64::MAX)
        .expect("set quota failed");
    // ceil(u64::MAX / 1 MiB) does not fit a 32-bit chunk count.
    let res = directory.start_upload(
        &user,
        "huge".to_string(),
        "t".to_string(),
        u64::MAX,
        Ok(()),
        NOW,
        1,
    );
    assert!(matches!(res, Err(DirectoryError::InvalidRequest(_))));
}
