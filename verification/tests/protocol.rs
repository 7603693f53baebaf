use messenger::protocol::{
    choose_compressed_body, protocol_version, ApplicationEnvelope, ApplicationType, Error,
    FrameType, Id, TransportFrame, MAX_FRAME_SIZE,
};

fn id() -> Id {
    Id([7; 16])
}

fn frame() -> TransportFrame {
    TransportFrame {
        version: 1,
        kind: FrameType::Ping,
        client_message_id: id(),
        ttl_seconds: 0,
        body: vec![],
    }
}

fn hex(b: &[u8]) -> String {
    b.iter().map(|x| format!("{x:02x}")).collect()
}

#[test]
fn version_is_available() {
    assert_eq!(protocol_version(), 1);
}

#[test]
fn deterministic_round_trip() {
    let a = frame().encode().unwrap();
    assert_eq!(a, frame().encode().unwrap());
    assert_eq!(TransportFrame::decode(&a).unwrap(), frame());
    assert_eq!(hex(&a), "8601010e50070707070707070707070707070707070040");
}

#[test]
fn rejects_malformed_truncated_oversized_and_map() {
    assert!(matches!(TransportFrame::decode(&[0x86]), Err(Error::Truncated)));
    assert!(matches!(TransportFrame::decode(&[0xa1, 0, 0]), Err(Error::Malformed)));
    assert!(matches!(
        TransportFrame::decode(&vec![0; MAX_FRAME_SIZE + 1]),
        Err(Error::TooLarge)
    ));
}

#[test]
fn app_round_trip() {
    let x = ApplicationEnvelope {
        kind: ApplicationType::TextMessage,
        event_id: id(),
        conversation_id: id(),
        encrypted_content: vec![1, 2],
    };
    assert_eq!(ApplicationEnvelope::decode(&x.encode().unwrap()).unwrap(), x);
}

#[test]
fn compression_requires_real_saving() {
    assert!(choose_compressed_body(&[1, 2], &[1, 2]).is_none());
    assert_eq!(choose_compressed_body(&[1, 2, 3], &[9]), Some(vec![9]));
}

#[test]
fn fuzz_corpus_never_panics() {
    let mut x = 1u64;
    for _ in 0..5000 {
        x = x.wrapping_mul(6364136223846793005).wrapping_add(1);
        let n = (x as usize) % 80;
        let mut v = vec![0; n];
        for b in &mut v {
            x = x.wrapping_mul(2862933555777941757).wrapping_add(1);
            *b = x as u8;
        }
        let _ = TransportFrame::decode(&v);
    }
}

#[test]
fn frame_kind_codes_round_trip() {
    assert_eq!(FrameType::Ping.code(), 14);
    let mut unknown = vec![0x86, 0x01, 0x01, 0x18, 200, 0x50];
    unknown.extend_from_slice(&[7; 16]);
    unknown.extend_from_slice(&[0x00, 0x40]);
    assert!(matches!(TransportFrame::decode(&unknown), Err(Error::UnknownFrameType)));
}

#[test]
fn oversized_body_is_refused_on_encode() {
    let mut f = frame();
    f.body = vec![0; MAX_FRAME_SIZE + 1];
    assert!(matches!(f.encode(), Err(Error::TooLarge)));
}

#[test]
fn trailing_bytes_are_rejected() {
    let mut a = frame().encode().unwrap();
    a.push(0);
    assert!(TransportFrame::decode(&a).is_err());
}
