use messenger::protocol::{FrameType, Id, TransportFrame, PROTOCOL_VERSION};
use messenger::relay_rules::{
    check_core_response, check_inbound_frame, is_long_poll_frame, relay_error_body, socket_action,
    SocketAction, SocketInput,
};

fn frame(kind: FrameType) -> Vec<u8> {
    TransportFrame {
        version: PROTOCOL_VERSION,
        kind,
        client_message_id: Id([1; 16]),
        ttl_seconds: 0,
        body: vec![],
    }
    .encode()
    .unwrap()
}

#[test]
fn relay_forwards_only_frames() {
    assert_eq!(check_inbound_frame(&frame(FrameType::Ping)), Ok(()));
    assert_eq!(check_inbound_frame(&[0x86]), Err(400));
    assert_eq!(check_core_response(true, &frame(FrameType::Pong)), Ok(()));
    assert_eq!(check_core_response(false, &frame(FrameType::Pong)), Err(502));
    assert_eq!(check_core_response(true, b"not a frame"), Err(502));
    assert!(is_long_poll_frame(&frame(FrameType::SyncRequest)));
    assert!(!is_long_poll_frame(&frame(FrameType::Ping)));
    assert!(!is_long_poll_frame(&[]));
}

#[test]
fn relay_error_body_caps_the_status() {
    assert_eq!(relay_error_body(400), vec![0x82, 0x01, 255]);
    assert_eq!(relay_error_body(200), vec![0x82, 0x01, 200]);
    assert_eq!(socket_action(SocketInput::Binary), SocketAction::Forward);
    assert_eq!(socket_action(SocketInput::Ping), SocketAction::Pong);
    assert_eq!(socket_action(SocketInput::Failure), SocketAction::Stop);
    assert_eq!(socket_action(SocketInput::Other), SocketAction::Skip);
}
