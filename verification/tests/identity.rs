use messenger::identity::{
    account_id, canonical_username, create_account, create_recovery_package,
    decode_and_verify_qr_payload, decrypt_recovery_blob, encode_qr_payload,
    encrypt_recovery_blob, generate_recovery_phrase, restore_account_root, sign_invite,
    verify_device_certificate, verify_invite, IdentityError,
};
use messenger::primitives::unix_time;

#[test]
fn identity_and_recovery() {
    let (r, _, c) = create_account();
    assert!(verify_device_certificate(&r.public_key(), &c));
    let p = generate_recovery_phrase();
    let x = encrypt_recovery_blob(&p, b"root key backup").unwrap();
    assert_eq!(decrypt_recovery_blob(&p, &x).unwrap(), b"root key backup");
    assert!(canonical_username("Test_Name").is_ok());
    assert_eq!(canonical_username("teSt").unwrap(), "test")
}

#[test]
fn tampering_fails() {
    let (r, _, _) = create_account();
    let mut i = sign_invite(&r, None);
    i.account_id[0] ^= 1;
    assert!(!verify_invite(&r.public_key(), &i, 0))
}

#[test]
fn recovery_restores_root_but_not_message_history() {
    let (root, _, _) = create_account();
    let id = account_id(&root);
    let package = create_recovery_package(&root).unwrap();
    assert!(!package.encrypted_root.windows(32).any(|window| window == root.0));
    let restored = restore_account_root(&package.phrase.to_words(), &package.encrypted_root).unwrap();
    assert_eq!(account_id(&restored), id);
    let mut words = package
        .phrase
        .to_words()
        .split_whitespace()
        .map(str::to_owned)
        .collect::<Vec<_>>();
    words[0] = "abandon".into();
    assert!(restore_account_root(&words.join(" "), &package.encrypted_root).is_err());
    assert!(restore_account_root("one malformed word", &package.encrypted_root).is_err());
}

#[test]
fn qr_round_trip_and_tamper_rejection() {
    let (root, _, _) = create_account();
    let invite = sign_invite(&root, Some(unix_time() + 60));
    let payload = encode_qr_payload(&root, &invite).unwrap();
    assert_eq!(
        decode_and_verify_qr_payload(&payload, unix_time()).unwrap().1.account_id,
        account_id(&root)
    );
    let mut tampered = payload;
    tampered[70] ^= 1;
    assert!(decode_and_verify_qr_payload(&tampered, unix_time()).is_err());
}

#[test]
fn usernames_are_canonical_and_bounded() {
    assert_eq!(canonical_username("Alice_01").unwrap(), "alice_01");
    assert_eq!(canonical_username("ab"), Err(IdentityError::InvalidInput));
    assert!(canonical_username("bad name").is_err());
}

#[test]
fn expired_invite_is_rejected() {
    let (root, _, _) = create_account();
    let invite = sign_invite(&root, Some(1000));
    assert!(verify_invite(&root.public_key(), &invite, 1000));
    assert!(!verify_invite(&root.public_key(), &invite, 1001));
}

#[test]
fn certificate_from_another_root_is_rejected() {
    let (_, _, cert) = create_account();
    let (other, _, _) = create_account();
    assert!(!verify_device_certificate(&other.public_key(), &cert));
}

#[test]
fn canonical_usernames_are_fixed_points() {
    let once = canonical_username("ALICE_01").unwrap();
    assert_eq!(once, "alice_01");
    assert_eq!(canonical_username(&once).unwrap(), once);
    assert_eq!(canonical_username("bob.smith_9").unwrap(), "bob.smith_9");
}
