use ed25519_dalek::{Signer, SigningKey};
use messenger::protocol::{FrameType, Id, TransportFrame, MAX_FRAME_SIZE, PROTOCOL_VERSION};
use messenger::transport::{RelayEndpoint, SignedRelayDirectory, TransportError};
use messenger::transport_manager::{FlushStep, TransportManager};
use rand_core::OsRng;

struct FakeSender {
    attempts: Vec<([u8; 16], &'static str)>,
    fail_a: bool,
    fail_ws: bool,
}

impl FakeSender {
    fn websocket(&mut self, id: [u8; 16], frame: &[u8]) -> Result<Vec<u8>, TransportError> {
        self.attempts.push((id, "ws"));
        if self.fail_ws || (self.fail_a && id == [1; 16]) {
            Err(TransportError::Unavailable)
        } else {
            Ok(frame.to_vec())
        }
    }

    fn https(&mut self, id: [u8; 16], frame: &[u8]) -> Result<Vec<u8>, TransportError> {
        self.attempts.push((id, "https"));
        if self.fail_a && id == [1; 16] {
            Err(TransportError::Unavailable)
        } else {
            Ok(frame.to_vec())
        }
    }
}

fn flush(
    manager: &mut TransportManager,
    sender: &mut FakeSender,
    now: u64,
) -> Result<Vec<Vec<u8>>, TransportError> {
    let (mut cursor, mut step) = manager.begin_flush(now);
    loop {
        match step {
            FlushStep::Websocket(i) => {
                let id = manager.directory().endpoints[i].endpoint_id;
                let frame = manager.front_frame().unwrap().to_vec();
                let outcome = sender.websocket(id, &frame);
                step = manager.websocket_outcome(&mut cursor, outcome, now);
            }
            FlushStep::Https(i) => {
                let id = manager.directory().endpoints[i].endpoint_id;
                let frame = manager.front_frame().unwrap().to_vec();
                let outcome = sender.https(id, &frame);
                step = manager.https_outcome(&mut cursor, outcome, now);
            }
            FlushStep::Complete => return Ok(cursor.into_responses()),
            FlushStep::Unavailable => return Err(TransportError::Unavailable),
        }
    }
}

fn signed_directory(key: &SigningKey, now: u64) -> SignedRelayDirectory {
    let mut value = SignedRelayDirectory {
        version: 2,
        issued_at: now - 1,
        expires_at: now + 3600,
        endpoints: vec![
            RelayEndpoint {
                endpoint_id: [1; 16],
                websocket_url: "wss://a/ws".into(),
                https_url: "https://a/sync".into(),
                priority: 1,
            },
            RelayEndpoint {
                endpoint_id: [2; 16],
                websocket_url: "wss://b/ws".into(),
                https_url: "https://b/sync".into(),
                priority: 2,
            },
        ],
        signature: [0; 64],
    };
    value.signature = key.sign(&value.signing_bytes().unwrap()).to_bytes();
    value
}

fn frame() -> TransportFrame {
    TransportFrame {
        version: PROTOCOL_VERSION,
        kind: FrameType::UploadEnvelope,
        client_message_id: Id([8; 16]),
        ttl_seconds: 60,
        body: b"opaque".to_vec(),
    }
}

#[test]
fn relay_a_failure_switches_to_b_without_losing_or_duplicating_outbox() {
    let key = SigningKey::generate(&mut OsRng);
    let now = 1_000_000;
    let mut sender = FakeSender { attempts: Vec::new(), fail_a: true, fail_ws: false };
    let mut manager =
        TransportManager::new(signed_directory(&key, now), key.verifying_key().to_bytes(), now)
            .unwrap();
    manager.enqueue(&frame()).unwrap();
    manager.enqueue(&frame()).unwrap();
    assert_eq!(manager.pending_count(), 1);
    assert_eq!(flush(&mut manager, &mut sender, now).unwrap().len(), 1);
    assert_eq!(manager.pending_count(), 0);
    assert_eq!(manager.counters().relay_switches, 1);
    assert_eq!(
        sender.attempts.iter().map(|x| x.0).collect::<Vec<_>>(),
        vec![[1; 16], [1; 16], [2; 16]]
    );
    manager
        .enqueue(&TransportFrame { client_message_id: Id([9; 16]), ..frame() })
        .unwrap();
    flush(&mut manager, &mut sender, now + 60).unwrap();
    assert_eq!(sender.attempts.last().unwrap().0, [2; 16]);
    manager.notify_network_change();
}

#[test]
fn websocket_blocked_uses_https_and_invalid_directory_is_rejected() {
    let key = SigningKey::generate(&mut OsRng);
    let now = 2_000_000;
    let mut sender = FakeSender { attempts: Vec::new(), fail_a: false, fail_ws: true };
    let mut manager =
        TransportManager::new(signed_directory(&key, now), key.verifying_key().to_bytes(), now)
            .unwrap();
    let encoded_directory = manager.directory().encode().unwrap();
    assert_eq!(SignedRelayDirectory::decode(&encoded_directory).unwrap(), *manager.directory());
    manager.enqueue(&frame()).unwrap();
    assert_eq!(flush(&mut manager, &mut sender, now).unwrap().len(), 1);
    let mut tampered = signed_directory(&key, now);
    tampered.endpoints[0].priority = 9;
    assert_eq!(
        manager.update_directory(tampered, now),
        Err(TransportError::InvalidDirectorySignature)
    );
    let mut expired = signed_directory(&key, now);
    expired.expires_at = now;
    expired.signature = key.sign(&expired.signing_bytes().unwrap()).to_bytes();
    assert_eq!(manager.update_directory(expired, now), Err(TransportError::ExpiredDirectory));
}

#[test]
fn every_failure_keeps_the_outbox_and_backs_off() {
    let key = SigningKey::generate(&mut OsRng);
    let now = 3_000_000;
    let mut sender = FakeSender { attempts: Vec::new(), fail_a: true, fail_ws: true };
    let mut directory = signed_directory(&key, now);
    directory.endpoints.truncate(1);
    directory.signature = key.sign(&directory.signing_bytes().unwrap()).to_bytes();
    let mut manager =
        TransportManager::new(directory, key.verifying_key().to_bytes(), now).unwrap();
    manager.enqueue(&frame()).unwrap();
    assert_eq!(flush(&mut manager, &mut sender, now), Err(TransportError::Unavailable));
    assert_eq!(manager.pending_count(), 1);
    // First failure: 2 seconds plus a jitter of 1 % 2 from the ID's first byte.
    assert_eq!(manager.next_retry_at(), Some(now + 3));
    let counters = manager.counters();
    assert_eq!(counters.attempts, 2);
    assert_eq!(counters.websocket_failures, 1);
    assert_eq!(counters.https_failures, 1);
    assert_eq!(counters.sent, 2 * frame().encode().unwrap().len() as u64);
    // While cooling down, the endpoint is not tried at all.
    let tried = sender.attempts.len();
    assert_eq!(flush(&mut manager, &mut sender, now + 1), Err(TransportError::Unavailable));
    assert_eq!(sender.attempts.len(), tried);
    manager.notify_network_change();
    assert_eq!(manager.next_retry_at(), None);
    assert_eq!(manager.pending_count(), 1);
}

#[test]
fn rollback_and_oversized_frames_are_refused() {
    let key = SigningKey::generate(&mut OsRng);
    let now = 4_000_000;
    let mut manager =
        TransportManager::new(signed_directory(&key, now), key.verifying_key().to_bytes(), now)
            .unwrap();
    let mut older = signed_directory(&key, now);
    older.version = 1;
    older.signature = key.sign(&older.signing_bytes().unwrap()).to_bytes();
    assert_eq!(manager.update_directory(older, now), Err(TransportError::DirectoryRollback));
    assert_eq!(manager.directory().version, 2);
    let big = TransportFrame { body: vec![0; MAX_FRAME_SIZE], ..frame() };
    assert_eq!(manager.enqueue(&big), Err(TransportError::FrameTooLarge));
    assert_eq!(manager.pending_count(), 0);
}

#[test]
fn directory_layout_rejects_bad_schemes_and_truncation() {
    let key = SigningKey::generate(&mut OsRng);
    let now = 5_000_000;
    let good = signed_directory(&key, now).encode().unwrap();
    assert!(SignedRelayDirectory::decode(&good[..good.len() - 1]).is_err());
    let mut bad = signed_directory(&key, now);
    bad.endpoints[0].websocket_url = "ftp://a/ws".into();
    let encoded = bad.encode().unwrap();
    assert_eq!(SignedRelayDirectory::decode(&encoded), Err(TransportError::InvalidResponse));
    let mut long = signed_directory(&key, now);
    long.endpoints[0].https_url = format!("https://{}", "a".repeat(2100));
    assert_eq!(long.signing_bytes(), Err(TransportError::InvalidResponse));
}

#[test]
fn signing_order_sorts_by_priority_then_id() {
    let key = SigningKey::generate(&mut OsRng);
    let now = 6_000_000;
    let mut swapped = signed_directory(&key, now);
    swapped.endpoints.reverse();
    assert_eq!(swapped.signing_bytes().unwrap(), signed_directory(&key, now).signing_bytes().unwrap());
    assert_eq!(
        &swapped.signing_bytes().unwrap()[..28],
        b"resilient/relay-directory/v1"
    );
}

#[test]
fn flush_tries_preferred_then_priority_then_directory_order() {
    let key = SigningKey::generate(&mut OsRng);
    let now = 7_000_000;
    let endpoint = |id: u8, priority: u16| RelayEndpoint {
        endpoint_id: [id; 16],
        websocket_url: format!("wss://{id}/ws"),
        https_url: format!("https://{id}/sync"),
        priority,
    };
    let mut directory = signed_directory(&key, now);
    directory.endpoints = vec![endpoint(7, 5), endpoint(1, 1), endpoint(6, 1)];
    directory.signature = key.sign(&directory.signing_bytes().unwrap()).to_bytes();
    let mut manager =
        TransportManager::new(directory, key.verifying_key().to_bytes(), now).unwrap();
    let mut sender = FakeSender { attempts: Vec::new(), fail_a: true, fail_ws: false };
    manager.enqueue(&frame()).unwrap();
    flush(&mut manager, &mut sender, now).unwrap();
    // Priority 1 before priority 5; of the two with priority 1, directory order.
    assert_eq!(
        sender.attempts.iter().map(|x| x.0).collect::<Vec<_>>(),
        vec![[1; 16], [1; 16], [6; 16]]
    );
    manager.notify_network_change();
    manager
        .enqueue(&TransportFrame { client_message_id: Id([9; 16]), ..frame() })
        .unwrap();
    sender.attempts.clear();
    flush(&mut manager, &mut sender, now + 1).unwrap();
    // The endpoint that answered last goes first.
    assert_eq!(sender.attempts, vec![([6; 16], "ws")]);
}

#[test]
fn same_version_directory_is_a_rollback_and_newer_is_accepted() {
    let key = SigningKey::generate(&mut OsRng);
    let now = 8_000_000;
    let mut manager =
        TransportManager::new(signed_directory(&key, now), key.verifying_key().to_bytes(), now)
            .unwrap();
    let mut same = signed_directory(&key, now);
    same.endpoints[0].priority = 5;
    same.signature = key.sign(&same.signing_bytes().unwrap()).to_bytes();
    assert_eq!(manager.update_directory(same, now), Err(TransportError::DirectoryRollback));
    assert_eq!(manager.directory().endpoints[0].priority, 1);
    let mut newer = signed_directory(&key, now);
    newer.version = 3;
    newer.endpoints[0].priority = 5;
    newer.signature = key.sign(&newer.signing_bytes().unwrap()).to_bytes();
    assert_eq!(manager.update_directory(newer, now), Ok(()));
    assert_eq!(manager.directory().version, 3);
}

#[test]
fn unsorted_directory_reads_back_in_signing_order() {
    let key = SigningKey::generate(&mut OsRng);
    let now = 9_000_000;
    let mut swapped = signed_directory(&key, now);
    swapped.endpoints.reverse();
    let decoded = SignedRelayDirectory::decode(&swapped.encode().unwrap()).unwrap();
    assert_eq!(decoded, signed_directory(&key, now));
    assert_eq!(decoded.endpoints[0].endpoint_id, [1; 16]);
    assert_eq!(decoded.endpoints[1].endpoint_id, [2; 16]);
}

#[test]
fn flush_sends_frames_in_order_and_keeps_each_answer() {
    let key = SigningKey::generate(&mut OsRng);
    let now = 1_000_000;
    let mut sender = FakeSender { attempts: Vec::new(), fail_a: true, fail_ws: false };
    let mut manager =
        TransportManager::new(signed_directory(&key, now), key.verifying_key().to_bytes(), now)
            .unwrap();
    let first = frame();
    let second = TransportFrame { client_message_id: Id([9; 16]), ..frame() };
    manager.enqueue(&first).unwrap();
    manager.enqueue(&second).unwrap();
    let responses = flush(&mut manager, &mut sender, now).unwrap();
    assert_eq!(responses, vec![first.encode().unwrap(), second.encode().unwrap()]);
    assert_eq!(
        sender.attempts,
        vec![([1; 16], "ws"), ([1; 16], "https"), ([2; 16], "ws"), ([2; 16], "ws")]
    );
    assert_eq!(manager.pending_count(), 0);
}
