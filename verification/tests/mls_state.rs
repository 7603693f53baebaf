use messenger::identity::{account_id, create_account, device_certificate_fingerprint};
use messenger::mls_state::{
    check_group_id, decode_state_snapshot, decrypt_state, encode_state_snapshot, encrypt_state,
    find_member_index, key_package_count, verify_member_credential, CryptoError, MemberCredential,
    StateSnapshot,
};

fn member(seed: u8) -> MemberCredential {
    MemberCredential {
        device_id: [seed; 16],
        account_id: [seed.wrapping_add(1); 32],
        certificate_fingerprint: [seed.wrapping_add(2); 16],
    }
}

#[test]
fn credential_round_trip_and_shape() {
    let m = member(3);
    let bytes = m.encode();
    assert_eq!(bytes.len(), 65);
    assert_eq!(bytes[0], 1);
    assert_eq!(MemberCredential::decode(&bytes).unwrap(), m);
    assert_eq!(MemberCredential::decode(&bytes[..64]), Err(CryptoError::InvalidCredential));
    let mut wrong = bytes.clone();
    wrong[0] = 2;
    assert_eq!(MemberCredential::decode(&wrong), Err(CryptoError::InvalidCredential));
}

#[test]
fn member_credential_must_be_genuine() {
    let (root, _, certificate) = create_account();
    let valid = MemberCredential {
        device_id: certificate.device_id,
        account_id: account_id(&root),
        certificate_fingerprint: device_certificate_fingerprint(&certificate),
    };
    assert_eq!(
        verify_member_credential(&valid.encode(), &root.public_key(), &certificate).unwrap(),
        valid
    );
    let mut forged = valid;
    forged.account_id[0] ^= 1;
    assert_eq!(
        verify_member_credential(&forged.encode(), &root.public_key(), &certificate),
        Err(CryptoError::InvalidCredential)
    );
    let (other, _, _) = create_account();
    assert!(verify_member_credential(&valid.encode(), &other.public_key(), &certificate).is_err());
}

#[test]
fn snapshot_seals_and_restores_sorted_entries() {
    let snapshot = StateSnapshot {
        signer: vec![1, 2, 3],
        identity: member(1).encode(),
        group_id: b"persistent".to_vec(),
        entries: vec![(vec![9], vec![1]), (vec![2, 5], vec![]), (vec![2], vec![7, 7])],
    };
    let plain = encode_state_snapshot(&snapshot);
    let sealed = encrypt_state(&[5; 32], &plain).unwrap();
    assert_eq!(decrypt_state(&[6; 32], &sealed), Err(CryptoError::StateAuthentication));
    let opened = decrypt_state(&[5; 32], &sealed).unwrap();
    let restored = decode_state_snapshot(&opened).unwrap();
    assert_eq!(restored.signer, snapshot.signer);
    assert_eq!(restored.group_id, b"persistent".to_vec());
    assert_eq!(
        restored.entries,
        vec![(vec![2], vec![7, 7]), (vec![2, 5], vec![]), (vec![9], vec![1])]
    );
    assert_eq!(decode_state_snapshot(&opened[..opened.len() - 1]).err(), Some(CryptoError::StateAuthentication));
    let mut trailing = opened.clone();
    trailing.push(0);
    assert_eq!(decode_state_snapshot(&trailing).err(), Some(CryptoError::StateAuthentication));
}

#[test]
fn request_checks() {
    assert_eq!(check_group_id(b""), Err(CryptoError::InvalidMessage));
    assert_eq!(check_group_id(&[1; 255]), Ok(()));
    assert_eq!(check_group_id(&[1; 256]), Err(CryptoError::InvalidMessage));
    assert_eq!(key_package_count(1000), 100);
    assert_eq!(key_package_count(7), 7);
    let members = vec![(member(1).encode(), 4u32), (member(2).encode(), 9u32), (member(2).encode(), 11u32)];
    assert_eq!(find_member_index(&members, &member(2).encode()), Ok(9));
    assert_eq!(find_member_index(&members, &member(3).encode()), Err(CryptoError::InvalidCredential));
}
