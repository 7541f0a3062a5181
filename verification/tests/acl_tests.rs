//! Access control: reader and writer grants, and their revocation.

use vault_core::directory::api::Directory;
use vault_core::directory::config::Config as DirConfig;
use vault_core::directory::errors::DirectoryError;
use vault_core::shared::types::{FileRole, Principal};

const SECRET: &[u8] = b"v1_shared_secret_for_vault_core";
const NOW: u64 = 1_700_000_000_000_000_000;

fn pr(b: u8) -> Principal {
    Principal::try_from_slice(&[b; 29]).unwrap()
}

fn new_directory() -> Directory {
    Directory::new(
        Principal::try_from_slice(&[0xd1]).unwrap(),
        DirConfig {
            admins: Some(vec![pr(9)]),
            rate_per_gb_per_month: Some(100),
            shared_secret: Some(SECRET.to_vec()),
            icp_ledger: None,
            ckusdc_ledger: None,
        },
    )
}

#[test]
fn test_acl_add_remove_access() {
    let mut directory = new_directory();
    let caller = pr(1);
    let viewer = pr(2);

    // 1. Upload a file (size 0 commits immediately).
    let session = directory
        .start_upload(
            &caller,
            "acl_test.txt".to_string(),
            "text/plain".to_string(),
            0u64,
            Ok(()),
            NOW,
            1,
        )
        .unwrap_or_else(|e| panic!("Start upload failed: {:?}", e));
    let meta = directory
        .commit_upload(&session.upload_id, NOW)
        .unwrap_or_else(|e| panic!("Commit failed: {:?}", e));
    let file_id = meta.file_id;

    // 2. The viewer cannot read yet.
    let meta_res_fail = directory.get_file_meta(&viewer, &file_id);
    assert!(meta_res_fail.is_err(), "Viewer should NOT have access yet");

    // 3. The owner grants the viewer the reader role.
    directory
        .add_file_access(&caller, &file_id, &viewer, FileRole::Reader)
        .expect("add access failed");

    // 4. The viewer can read now.
    match directory.get_file_meta(&viewer, &file_id) {
        Ok(m) => assert!(m.readers.contains(&viewer)),
        Err(e) => panic!("Viewer should have access now: {:?}", e),
    }

    // 5. The owner removes the viewer.
    directory
        .remove_file_access(&caller, &file_id, &viewer)
        .expect("remove access failed");

    // 6. The viewer cannot read anymore.
    let meta_res_fail_again = directory.get_file_meta(&viewer, &file_id);
    assert!(meta_res_fail_again.is_err(), "Viewer should NOT have access anymore");
}

#[test]
fn test_acl_writer_delete() {
    let mut directory = new_directory();
    let caller = pr(1);
    let other_user = pr(3);

    // 1. Upload a file.
    let session = directory
        .start_upload(
            &caller,
            "writer_test.txt".to_string(),
            "text/plain".to_string(),
            0u64,
            Ok(()),
            NOW,
            1,
        )
        .unwrap_or_else(|e| panic!("Start upload failed: {:?}", e));
    let meta = directory
        .commit_upload(&session.upload_id, NOW)
        .unwrap_or_else(|e| panic!("Commit failed: {:?}", e));
    let file_id = meta.file_id;

    // 2. The other user cannot delete.
    let (del_res_fail, _) = directory.delete_file(&other_user, &file_id);
    assert!(del_res_fail.is_err());

    // 3. Grant the writer role.
    directory
        .add_file_access(&caller, &file_id, &other_user, FileRole::Writer)
        .expect("add access failed");

    // 4. The other user can read and delete now.
    assert!(directory.get_file_meta(&other_user, &file_id).is_ok());
    let (del_res_ok, _) = directory.delete_file(&other_user, &file_id);
    assert!(del_res_ok.is_ok());

    // 5. The file is gone.
    assert!(directory.get_file_meta(&other_user, &file_id).is_err());
}

#[test]
fn test_acl_owner_only_grants() {
    let mut directory = new_directory();
    let owner = pr(1);
    let session = directory
        .start_upload(&owner, "f".to_string(), "t".to_string(), 0, Ok(()), NOW, 1)
        .expect("start failed");
    let meta = directory.commit_upload(&session.upload_id, NOW).expect("commit failed");

    // Even a reader cannot grant roles; only the owner may.
    directory
        .add_file_access(&owner, &meta.file_id, &pr(2), FileRole::Reader)
        .expect("add access failed");
    let res = directory.add_file_access(&pr(2), &meta.file_id, &pr(3), FileRole::Reader);
    assert!(matches!(res, Err(DirectoryError::Unauthorized)));
    let res = directory.remove_file_access(&pr(2), &meta.file_id, &pr(2));
    assert!(matches!(res, Err(DirectoryError::Unauthorized)));
}

#[test]
fn test_acl_grant_is_idempotent() {
    let mut directory = new_directory();
    let owner = pr(1);
    let session = directory
        .start_upload(&owner, "f".to_string(), "t".to_string(), 0, Ok(()), NOW, 1)
        .expect("start failed");
    let meta = directory.commit_upload(&session.upload_id, NOW).expect("commit failed");
    directory
        .add_file_access(&owner, &meta.file_id, &pr(2), FileRole::Reader)
        .expect("add failed");
    directory
        .add_file_access(&owner, &meta.file_id, &pr(2), FileRole::Reader)
        .expect("second add failed");
    let m = directory.get_file_meta(&owner, &meta.file_id).expect("meta failed");
    assert_eq!(m.readers.len(), 1);
}
