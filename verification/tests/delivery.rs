use ed25519_dalek::{Signer, SigningKey};
use messenger::delivery::{
    cleanup_batch, migration_checksum, migration_verdict,
    check_challenge_response, check_commit_correlation, check_cursor_available,
    check_cursor_regression, check_membership_author, check_membership_role, check_payload_size,
    check_rate_limit_request, check_receipts, check_refresh_rotation, check_registration,
    duplicate_upload, membership_operation_payload, membership_replay, rate_limit_verdict,
    registration_verdict, stored_id16, sync_bounds, token_hash, username_lookup_key,
    username_request, ApiError, UploadAccepted, UploadedEvent, ACCESS_TOKEN_DOMAIN,
    MAX_RECOVERY_BLOB_SIZE,
};
use messenger::identity::{account_id, auth_challenge_payload, create_account, refresh_proof_payload};
use rand_core::OsRng;
use sha2::{Digest, Sha256};

#[test]
fn membership_payload_layout() {
    let p = membership_operation_payload(&[1; 16], &[2; 16], &[3; 16], &[4; 16], 2, true);
    assert_eq!(&p[..33], b"resilient/membership-operation/v1");
    assert_eq!(p.len(), 33 + 64 + 3);
    assert_eq!(&p[97..], &[0, 2, 1]);
    let q = membership_operation_payload(&[1; 16], &[2; 16], &[3; 16], &[4; 16], -1, false);
    assert_eq!(&q[97..], &[0xff, 0xff, 0]);
}

#[test]
fn token_hash_is_domain_separated_sha256() {
    let token = [5u8; 32];
    let mut h = Sha256::new();
    h.update(b"resilient/session/v1");
    h.update(b"access");
    h.update(token);
    let expected: [u8; 32] = h.finalize().into();
    assert_eq!(token_hash(ACCESS_TOKEN_DOMAIN.as_bytes(), &token), expected);
    assert_ne!(token_hash(b"refresh", &token), expected);
}

#[test]
fn registration_requires_root_account_and_signed_certificate() {
    let (root, _, cert) = create_account();
    let id = account_id(&root);
    assert_eq!(check_registration(&id, &root.public_key(), &cert), Ok(()));
    assert_eq!(
        check_registration(&[0; 32], &root.public_key(), &cert),
        Err(ApiError::InvalidCredentials)
    );
    assert_eq!(registration_verdict(true, true), Err(ApiError::Replay));
    assert_eq!(registration_verdict(false, false), Err(ApiError::Conflict));
    assert_eq!(registration_verdict(false, true), Ok(()));
}

#[test]
fn challenge_answers_are_checked_in_order() {
    let device = SigningKey::generate(&mut OsRng);
    let challenge_id = [9u8; 16];
    let challenge = [3u8; 32];
    let signature = device.sign(&auth_challenge_payload(&challenge_id, &challenge)).to_bytes();
    let row = |expired: bool, consumed: bool| {
        Some((vec![1; 16], challenge.to_vec(), device.verifying_key().to_bytes().to_vec(), expired, consumed))
    };
    assert_eq!(check_challenge_response(&row(false, false), &challenge_id, &signature), Ok(()));
    assert_eq!(check_challenge_response(&row(true, true), &challenge_id, &signature), Err(ApiError::Replay));
    assert_eq!(check_challenge_response(&row(true, false), &challenge_id, &signature), Err(ApiError::Expired));
    assert_eq!(
        check_challenge_response(&row(false, false), &[8; 16], &signature),
        Err(ApiError::InvalidCredentials)
    );
    assert_eq!(check_challenge_response(&None, &challenge_id, &signature), Err(ApiError::InvalidCredentials));
}

#[test]
fn refresh_reuse_is_detected_before_expiry() {
    let device = SigningKey::generate(&mut OsRng);
    let token = [4u8; 32];
    let signature = device.sign(&refresh_proof_payload(&token)).to_bytes();
    let public = device.verifying_key().to_bytes().to_vec();
    let row = |used: bool, revoked: bool, expired: bool| Some((vec![1; 16], public.clone(), used, revoked, expired));
    assert_eq!(check_refresh_rotation(&row(false, false, false), &token, &signature), Ok(()));
    assert_eq!(check_refresh_rotation(&row(true, false, true), &token, &signature), Err(ApiError::TokenReuse));
    assert_eq!(check_refresh_rotation(&row(false, true, false), &token, &signature), Err(ApiError::TokenReuse));
    assert_eq!(check_refresh_rotation(&row(false, false, true), &token, &signature), Err(ApiError::Expired));
    assert_eq!(
        check_refresh_rotation(&row(false, false, false), &[5; 32], &signature),
        Err(ApiError::InvalidCredentials)
    );
}

#[test]
fn reserved_and_malformed_usernames_are_refused() {
    assert_eq!(username_request("Alice_01").unwrap(), "alice_01");
    assert_eq!(username_request("ADMIN"), Err(ApiError::InvalidInput));
    assert_eq!(username_request("system"), Err(ApiError::InvalidInput));
    assert_eq!(username_request("x"), Err(ApiError::InvalidInput));
    assert_eq!(username_lookup_key("Admin").unwrap(), "admin");
}

#[test]
fn membership_rules() {
    assert_eq!(check_membership_role(2), Ok(()));
    assert_eq!(check_membership_role(3), Err(ApiError::InvalidInput));
    assert_eq!(check_membership_role(-1), Err(ApiError::InvalidInput));
    let admin = SigningKey::generate(&mut OsRng);
    let op = membership_operation_payload(&[1; 16], &[2; 16], &[3; 16], &[4; 16], 0, false);
    let sig = admin.sign(&op).to_bytes();
    let key = Some(admin.verifying_key().to_bytes().to_vec());
    assert_eq!(check_membership_author(&key, &op, &sig), Ok(()));
    assert_eq!(check_membership_author(&None, &op, &sig), Err(ApiError::Unauthorized));
    assert_eq!(check_membership_author(&Some(vec![1; 31]), &op, &sig), Err(ApiError::Database));
    assert_eq!(check_membership_author(&key, &op[1..], &sig), Err(ApiError::InvalidCredentials));
    assert_eq!(membership_replay(&None, &op, &sig), Ok(false));
    assert_eq!(membership_replay(&Some((op.clone(), sig.to_vec())), &op, &sig), Ok(true));
    assert_eq!(membership_replay(&Some((op.clone(), vec![0; 64])), &op, &sig), Err(ApiError::Conflict));
}

#[test]
fn uploads_are_deduplicated_by_content() {
    let event = UploadedEvent {
        event_id: [1; 16],
        group_id: [2; 16],
        author_device_id: [3; 16],
        client_message_id: [4; 16],
        event_kind: 1,
        ciphertext: vec![9, 9],
        correlation_id: None,
    };
    assert_eq!(duplicate_upload(&None, &event), Ok(None));
    assert_eq!(
        duplicate_upload(&Some((42, vec![1; 16], vec![9, 9])), &event),
        Ok(Some(UploadAccepted { cursor: 42, duplicate: true }))
    );
    assert_eq!(duplicate_upload(&Some((42, vec![1; 16], vec![9])), &event), Err(ApiError::Conflict));
    assert_eq!(check_commit_correlation(2, &None), Err(ApiError::InvalidInput));
    assert_eq!(check_commit_correlation(2, &Some([1; 16])), Ok(()));
    assert_eq!(check_commit_correlation(1, &None), Ok(()));
}

#[test]
fn limits_and_cursors() {
    assert_eq!(check_payload_size(&[], 10), Err(ApiError::InvalidInput));
    assert_eq!(check_payload_size(&[1; 10], 10), Ok(()));
    assert_eq!(check_payload_size(&[1; 11], 10), Err(ApiError::InvalidInput));
    assert!(MAX_RECOVERY_BLOB_SIZE == 262144);
    assert_eq!(check_rate_limit_request(b"frame/v1/x", 120, 60), Ok(()));
    assert_eq!(check_rate_limit_request(&[1; 97], 120, 60), Err(ApiError::InvalidInput));
    assert_eq!(check_rate_limit_request(b"x", 0, 60), Err(ApiError::InvalidInput));
    assert_eq!(rate_limit_verdict(120, 120), Ok(()));
    assert_eq!(rate_limit_verdict(121, 120), Err(ApiError::Unauthorized));
    assert_eq!(check_cursor_regression(Some(41), 40), Err(ApiError::CursorRegression));
    assert_eq!(check_cursor_regression(Some(41), 41), Ok(()));
    assert_eq!(check_cursor_available(43, 42), Err(ApiError::InvalidInput));
    assert_eq!(sync_bounds(-5, 0), (0, 1));
    assert_eq!(sync_bounds(7, 99), (7, 50));
    assert_eq!(check_receipts(50, 1), Ok(()));
    assert_eq!(check_receipts(51, 2), Err(ApiError::InvalidInput));
    assert_eq!(check_receipts(1, 3), Err(ApiError::InvalidInput));
    assert_eq!(stored_id16(None, ApiError::InvalidCredentials), Err(ApiError::InvalidCredentials));
    assert_eq!(stored_id16(Some(vec![1; 15]), ApiError::InvalidCredentials), Err(ApiError::Database));
    assert_eq!(stored_id16(Some(vec![1; 16]), ApiError::InvalidCredentials), Ok([1; 16]));
}

#[test]
fn migrations_apply_once_and_conflict_on_a_changed_schema() {
    let checksum = migration_checksum("abc");
    assert_eq!(checksum[..4], [0xba, 0x78, 0x16, 0xbf]);
    assert_eq!(checksum[28..], [0xf2, 0x00, 0x15, 0xad]);
    assert_eq!(migration_verdict(&None, &checksum), Ok(true));
    assert_eq!(migration_verdict(&Some(checksum.to_vec()), &checksum), Ok(false));
    let other = migration_checksum("abd");
    assert_eq!(migration_verdict(&Some(other.to_vec()), &checksum), Err(ApiError::Conflict));
    assert_eq!(cleanup_batch(-5), 1);
    assert_eq!(cleanup_batch(500), 500);
    assert_eq!(cleanup_batch(50_000), 10_000);
}
