use messenger::local_store::{
    cancel_decision, check_counter_update, check_ingest_batch, check_key_rotation, decrypt_row,
    decrypt_text, encrypt_row, fixed_id, master_key, message_from_row, next_attempt_at_ms,
    observed_revision, pending_limit, receipt_transition, reencrypt_row, retry_delay_ms,
    schema_supported, search_matches, search_row, upload_acceptance, CoreError, MessageStatus,
    NetworkMode, SCHEMA_VERSION,
};

#[test]
fn rows_are_sealed_and_wrong_key_fails() {
    let key = [1u8; 32];
    let row = encrypt_row(&key, "unique-private-needle".as_bytes()).unwrap();
    assert!(!row.windows(21).any(|w| w == b"unique-private-needle"));
    assert_eq!(decrypt_text(&key, &row).unwrap(), "unique-private-needle");
    assert_eq!(decrypt_row(&[9; 32], &row), Err(CoreError::Authentication));
    assert_eq!(decrypt_row(&key, &row[..39]), Err(CoreError::Authentication));
    let rotated = reencrypt_row(&key, &[2; 32], &row).unwrap();
    assert_eq!(decrypt_row(&[2; 32], &rotated).unwrap(), b"unique-private-needle");
    assert_eq!(decrypt_row(&key, &rotated), Err(CoreError::Authentication));
}

#[test]
fn acceptance_is_idempotent_and_cursors_monotonic() {
    assert_eq!(upload_acceptance(Some(MessageStatus::ReadyToUpload.code())), Ok(true));
    assert_eq!(upload_acceptance(Some(MessageStatus::ServerAccepted.code())), Ok(false));
    assert_eq!(upload_acceptance(Some(MessageStatus::Cancelled.code())), Err(CoreError::InvalidTransition));
    assert_eq!(upload_acceptance(None), Err(CoreError::NotFound));
    assert_eq!(check_counter_update(Some(42), 42), Ok(()));
    assert_eq!(check_counter_update(Some(42), 41), Err(CoreError::InvalidTransition));
    assert_eq!(check_counter_update(None, 0), Ok(()));
}

#[test]
fn cancel_and_receipts_follow_the_state_machine() {
    assert_eq!(cancel_decision(Some(MessageStatus::RetryScheduled.code())), Ok(()));
    assert_eq!(cancel_decision(Some(MessageStatus::ServerAccepted.code())), Err(CoreError::InvalidTransition));
    assert_eq!(cancel_decision(None), Err(CoreError::InvalidTransition));
    assert_eq!(receipt_transition(Some(MessageStatus::ServerAccepted.code()), MessageStatus::Delivered), Ok(true));
    assert_eq!(receipt_transition(Some(MessageStatus::Read.code()), MessageStatus::Delivered), Ok(false));
    assert_eq!(receipt_transition(None, MessageStatus::Read), Err(CoreError::NotFound));
    assert_eq!(MessageStatus::try_from(7), Ok(MessageStatus::Read));
    assert_eq!(MessageStatus::try_from(11), Err(CoreError::InvalidTransition));
    assert_eq!(NetworkMode::from_code(2), Ok(NetworkMode::Survival));
    assert_eq!(NetworkMode::from_code(3), Err(CoreError::Authentication));
}

#[test]
fn retries_back_off_exponentially_up_to_a_cap() {
    assert_eq!(retry_delay_ms(0), 1000);
    assert_eq!(retry_delay_ms(3), 8000);
    assert_eq!(retry_delay_ms(10), 1_024_000);
    assert_eq!(retry_delay_ms(u32::MAX), 1_024_000);
    assert_eq!(next_attempt_at_ms(5, 1), 2005);
}

#[test]
fn limits_keys_and_versions() {
    assert_eq!(check_ingest_batch(50), Ok(()));
    assert_eq!(check_ingest_batch(51), Err(CoreError::InvalidTransition));
    assert_eq!(pending_limit(500), 50);
    assert_eq!(pending_limit(3), 3);
    assert_eq!(master_key(&[1; 31]), Err(CoreError::InvalidMasterKey));
    assert_eq!(master_key(&[1; 32]), Ok([1; 32]));
    assert_eq!(check_key_rotation(1, 2), Ok(()));
    assert_eq!(check_key_rotation(1, 3), Err(CoreError::InvalidTransition));
    assert!(schema_supported(SCHEMA_VERSION));
    assert!(!schema_supported(SCHEMA_VERSION + 1));
    assert_eq!(observed_revision(5, 9), 9);
    assert_eq!(observed_revision(12, 9), 12);
    assert_eq!(fixed_id(&[1; 15]), Err(CoreError::Authentication));
}

#[test]
fn search_is_case_insensitive() {
    assert!(search_matches("Я дома, Hello", "HELLO"));
    assert!(search_matches("Я дома", "я"));
    assert!(!search_matches("hello", "bye"));
    let key = [3u8; 32];
    let row = encrypt_row(&key, "Rotate Safely".as_bytes()).unwrap();
    let found = search_row(&key, "safely", &[1; 16], &[2; 16], &row, 1, 5).unwrap().unwrap();
    assert_eq!(found.plaintext, "Rotate Safely");
    assert_eq!(found.status, MessageStatus::Queued);
    assert_eq!(search_row(&key, "absent", &[1; 15], &[2; 16], &row, 1, 5), Ok(None));
    let message = message_from_row(&key, &[1; 16], &[2; 16], &row, 3, 5).unwrap();
    assert_eq!(message.status, MessageStatus::ReadyToUpload);
    assert_eq!(message_from_row(&key, &[1; 16], &[2; 16], &row, 99, 5), Err(CoreError::InvalidTransition));
}

#[test]
fn clock_milliseconds_clamp_to_i64() {
    assert_eq!(messenger::local_store::millis_to_i64(0), 0);
    assert_eq!(messenger::local_store::millis_to_i64(1_700_000_000_123), 1_700_000_000_123);
    assert_eq!(messenger::local_store::millis_to_i64(i64::MAX as u128 + 1), i64::MAX);
    assert_eq!(messenger::local_store::millis_to_i64(u128::MAX), i64::MAX);
    assert!(messenger::local_store::now_ms() > 1_600_000_000_000);
}
