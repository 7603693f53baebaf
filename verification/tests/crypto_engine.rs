use messenger::crypto_engine::CryptoEngine;
use messenger::identity::{account_id, create_account, device_certificate_fingerprint};
use messenger::mls_state::{CryptoError, IncomingMessage, MemberCredential};

fn member(seed: u8) -> MemberCredential {
    MemberCredential {
        device_id: [seed; 16],
        account_id: [seed; 32],
        certificate_fingerprint: [seed; 16],
    }
}

#[test]
fn credential_requires_a_valid_root_signed_device_certificate() {
    let (root, _, certificate) = create_account();
    let member = MemberCredential {
        device_id: certificate.device_id,
        account_id: account_id(&root),
        certificate_fingerprint: device_certificate_fingerprint(&certificate),
    };
    let engine = CryptoEngine::initialize_crypto_store(member, [3; 32]).unwrap();
    assert_eq!(
        engine
            .verify_member_credential(&member.encode(), &root.public_key(), &certificate)
            .unwrap(),
        member
    );
    let mut tampered = certificate;
    tampered.signature[0] ^= 1;
    assert!(engine
        .verify_member_credential(&member.encode(), &root.public_key(), &tampered)
        .is_err());
}

#[test]
fn alice_and_bob_exchange_real_mls_messages_and_reject_replay() {
    let mut alice = CryptoEngine::initialize_crypto_store(member(1), [8; 32]).unwrap();
    let mut bob = CryptoEngine::initialize_crypto_store(member(2), [9; 32]).unwrap();
    let bob_package = bob.generate_key_packages(1).unwrap().remove(0);
    alice.create_conversation(b"alice-bob").unwrap();
    let change = alice.commit_add_members(b"alice-bob", &[bob_package]).unwrap();
    bob.join_conversation_from_welcome(change.welcome.as_ref().unwrap()).unwrap();
    let ciphertext = alice.encrypt_application_message(b"alice-bob", b"private hello").unwrap();
    assert_eq!(
        bob.process_incoming_message(b"alice-bob", &ciphertext).unwrap(),
        IncomingMessage::Application(b"private hello".to_vec())
    );
    assert!(bob.process_incoming_message(b"alice-bob", &ciphertext).is_err());
    let reply = bob.encrypt_application_message(b"alice-bob", b"reply").unwrap();
    assert_eq!(
        alice.process_incoming_message(b"alice-bob", &reply).unwrap(),
        IncomingMessage::Application(b"reply".to_vec())
    );
}

#[test]
fn encrypted_state_survives_restart_and_wrong_key_fails() {
    let mut first = CryptoEngine::initialize_crypto_store(member(3), [7; 32]).unwrap();
    first.create_conversation(b"persistent").unwrap();
    let snapshot = first.export_conversation_state(b"persistent").unwrap();
    assert!(!snapshot.windows(10).any(|window| window == b"persistent"));
    let mut restored = CryptoEngine::initialize_crypto_store(member(3), [7; 32]).unwrap();
    assert_eq!(restored.import_conversation_state(&snapshot).unwrap(), b"persistent");
    assert_eq!(restored.get_conversation_epoch(b"persistent").unwrap(), 0);
    let mut wrong = CryptoEngine::initialize_crypto_store(member(3), [6; 32]).unwrap();
    assert!(wrong.import_conversation_state(&snapshot).is_err());
}

#[test]
fn ten_and_hundred_member_groups_are_real_openmls_groups() {
    for count in [10_usize, 100] {
        let mut owner = CryptoEngine::initialize_crypto_store(member(1), [5; 32]).unwrap();
        let group_id = format!("group-{count}");
        owner.create_conversation(group_id.as_bytes()).unwrap();
        let mut packages = Vec::new();
        for index in 1..count {
            let participant = CryptoEngine::initialize_crypto_store(
                member((index % 250) as u8 + 2),
                [index as u8; 32],
            )
            .unwrap();
            packages.push(participant.generate_key_packages(1).unwrap().remove(0));
        }
        let change = owner.commit_add_members(group_id.as_bytes(), &packages).unwrap();
        assert!(change.welcome.is_some());
        assert_eq!(owner.member_count(group_id.as_bytes()).unwrap(), count);
        let ciphertext = owner
            .encrypt_application_message(group_id.as_bytes(), b"group message")
            .unwrap();
        assert!(!ciphertext.is_empty());
    }
}

#[test]
fn out_of_order_and_removed_member_rules_hold() {
    let mut alice = CryptoEngine::initialize_crypto_store(member(10), [1; 32]).unwrap();
    let mut bob = CryptoEngine::initialize_crypto_store(member(11), [2; 32]).unwrap();
    let bob_package = bob.generate_key_packages(1).unwrap().remove(0);
    alice.create_conversation(b"ordering").unwrap();
    let welcome = alice
        .commit_add_members(b"ordering", &[bob_package])
        .unwrap()
        .welcome
        .unwrap();
    bob.join_conversation_from_welcome(&welcome).unwrap();
    let first = alice.encrypt_application_message(b"ordering", b"first").unwrap();
    let second = alice.encrypt_application_message(b"ordering", b"second").unwrap();
    assert_eq!(
        bob.process_incoming_message(b"ordering", &second).unwrap(),
        IncomingMessage::Application(b"second".to_vec())
    );
    assert_eq!(
        bob.process_incoming_message(b"ordering", &first).unwrap(),
        IncomingMessage::Application(b"first".to_vec())
    );
    let removal = alice.commit_remove_members(b"ordering", &member(11)).unwrap();
    assert_eq!(
        bob.process_incoming_message(b"ordering", &removal.commit).unwrap(),
        IncomingMessage::CommitApplied
    );
    let after = alice.encrypt_application_message(b"ordering", b"after removal").unwrap();
    assert!(bob.process_incoming_message(b"ordering", &after).is_err());
}

#[test]
fn delayed_welcome_works_and_simultaneous_commits_are_detected() {
    let mut alice = CryptoEngine::initialize_crypto_store(member(20), [20; 32]).unwrap();
    let mut bob = CryptoEngine::initialize_crypto_store(member(21), [21; 32]).unwrap();
    let bob_package = bob.generate_key_packages(1).unwrap().remove(0);
    alice.create_conversation(b"delayed-welcome").unwrap();
    let change = alice.commit_add_members(b"delayed-welcome", &[bob_package]).unwrap();
    let queued_while_offline = alice
        .encrypt_application_message(b"delayed-welcome", b"after welcome was queued")
        .unwrap();
    bob.join_conversation_from_welcome(change.welcome.as_ref().unwrap()).unwrap();
    assert_eq!(
        bob.process_incoming_message(b"delayed-welcome", &queued_while_offline).unwrap(),
        IncomingMessage::Application(b"after welcome was queued".to_vec())
    );

    let alice_commit = alice.self_update(b"delayed-welcome").unwrap();
    let bob_commit = bob.self_update(b"delayed-welcome").unwrap();
    // Both commits were created from the same epoch. Neither engine silently accepts
    // the competing branch after merging its own; sync must reconcile.
    assert!(alice.process_incoming_message(b"delayed-welcome", &bob_commit).is_err());
    assert!(bob.process_incoming_message(b"delayed-welcome", &alice_commit).is_err());
    assert_eq!(
        alice.get_conversation_epoch(b"delayed-welcome").unwrap(),
        bob.get_conversation_epoch(b"delayed-welcome").unwrap()
    );
}

#[test]
fn unknown_groups_and_bad_requests_are_refused() {
    let mut engine = CryptoEngine::initialize_crypto_store(member(30), [30; 32]).unwrap();
    assert_eq!(engine.create_conversation(b""), Err(CryptoError::InvalidMessage));
    assert_eq!(engine.create_conversation(&[7; 256]), Err(CryptoError::InvalidMessage));
    assert_eq!(engine.get_conversation_epoch(b"missing"), Err(CryptoError::ConversationNotFound));
    assert_eq!(engine.member_count(b"missing"), Err(CryptoError::ConversationNotFound));
    assert_eq!(
        engine.encrypt_application_message(b"missing", b"x"),
        Err(CryptoError::ConversationNotFound)
    );
    assert_eq!(engine.self_update(b"missing"), Err(CryptoError::ConversationNotFound));
    assert_eq!(engine.commit_add_members(b"missing", &[]), Err(CryptoError::ConversationNotFound));
    assert_eq!(engine.export_conversation_state(b"missing"), Err(CryptoError::ConversationNotFound));
    assert_eq!(
        engine.destroy_local_conversation_state(b"missing"),
        Err(CryptoError::ConversationNotFound)
    );
    assert_eq!(engine.generate_key_packages(150).unwrap().len(), 100);
    engine.create_conversation(b"mine").unwrap();
    assert_eq!(engine.member_count(b"mine"), Ok(1));
    assert_eq!(
        engine.commit_remove_members(b"mine", &member(99)),
        Err(CryptoError::InvalidCredential)
    );
    assert_eq!(engine.import_conversation_state(&[0; 39]), Err(CryptoError::StateAuthentication));
    engine.destroy_local_conversation_state(b"mine").unwrap();
    assert_eq!(engine.get_conversation_epoch(b"mine"), Err(CryptoError::ConversationNotFound));
}

#[test]
fn zero_key_packages_and_bad_group_ids_need_no_openmls() {
    let mut engine = CryptoEngine::initialize_crypto_store(member(20), [4; 32]).unwrap();
    assert_eq!(engine.generate_key_packages(0).unwrap().len(), 0);
    assert_eq!(engine.export_public_key_packages(0).unwrap().len(), 0);
    assert_eq!(engine.generate_key_packages(150).unwrap().len(), 100);
    assert_eq!(engine.create_conversation(&[]), Err(CryptoError::InvalidMessage));
    assert_eq!(engine.create_conversation(&[1; 256]), Err(CryptoError::InvalidMessage));
    assert_eq!(engine.create_conversation(&[1; 255]), Ok(()));
}

#[test]
fn a_restored_state_exports_again_and_imports_elsewhere() {
    let mut first = CryptoEngine::initialize_crypto_store(member(21), [7; 32]).unwrap();
    first.create_conversation(b"group-r").unwrap();
    let sealed = first.export_conversation_state(b"group-r").unwrap();
    let mut second = CryptoEngine::initialize_crypto_store(member(21), [7; 32]).unwrap();
    assert_eq!(second.import_conversation_state(&sealed).unwrap(), b"group-r".to_vec());
    let again = second.export_conversation_state(b"group-r").unwrap();
    let mut third = CryptoEngine::initialize_crypto_store(member(21), [7; 32]).unwrap();
    assert_eq!(third.import_conversation_state(&again).unwrap(), b"group-r".to_vec());
    assert_eq!(third.get_conversation_epoch(b"group-r"), second.get_conversation_epoch(b"group-r"));
}
