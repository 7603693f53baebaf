use messenger::api_wire::{
    binary_rejection, challenge_body, error_frame, is_empty_sync_page, key_package_body, long_poll_accepts,
    map_error, membership_body, parse_request, rate_limit_scope, recovery_body, response_frame,
    response_kind, sync_events_body, tokens_body, upload_ack_body, upload_event_body,
    welcomes_body, ApiRequest, SyncOperation, UploadOperation,
};
use messenger::delivery::{ApiError, Challenge, SessionTokens, SyncEvent, UploadAccepted};
use messenger::protocol::{ErrorCode, FrameType, Id, TransportFrame, PROTOCOL_VERSION};

#[test]
fn client_hello_reads_a_certificate() {
    let mut body = vec![1u8; 32];
    body.extend_from_slice(&[2; 32]);
    body.extend_from_slice(&[3; 16]);
    body.extend_from_slice(&[4; 32]);
    body.extend_from_slice(&7u64.to_be_bytes());
    body.extend_from_slice(&[5; 64]);
    match parse_request(FrameType::ClientHello, &body).unwrap() {
        ApiRequest::RegisterDevice { account_id, root_public_key, certificate } => {
            assert_eq!(account_id, [1; 32]);
            assert_eq!(root_public_key, [2; 32]);
            assert_eq!(certificate.device_id, [3; 16]);
            assert_eq!(certificate.issued_at, 7);
            assert_eq!(certificate.signature, [5; 64]);
        }
        _ => panic!("wrong request"),
    }
    body.push(0);
    assert!(matches!(parse_request(FrameType::ClientHello, &body), Err(ApiError::InvalidInput)));
}

#[test]
fn auth_requests_are_told_apart_by_length() {
    assert!(matches!(
        parse_request(FrameType::AuthChallenge, &[1; 16]),
        Ok(ApiRequest::BeginChallenge { trailing_bytes: false, .. })
    ));
    assert!(matches!(
        parse_request(FrameType::AuthChallenge, &[1; 17]),
        Ok(ApiRequest::BeginChallenge { trailing_bytes: true, .. })
    ));
    assert!(matches!(parse_request(FrameType::AuthChallenge, &[1; 15]), Err(ApiError::InvalidInput)));
    assert!(matches!(parse_request(FrameType::AuthResponse, &[1; 80]), Ok(ApiRequest::CompleteChallenge { .. })));
    assert!(matches!(parse_request(FrameType::AuthResponse, &[1; 112]), Ok(ApiRequest::RotateRefresh { .. })));
    assert!(matches!(parse_request(FrameType::AuthResponse, &[1; 81]), Err(ApiError::InvalidInput)));
}

#[test]
fn upload_operations_read_after_the_token() {
    let mut body = vec![9u8; 32];
    body.push(1);
    body.extend_from_slice(&[2; 16]);
    body.extend_from_slice(&[3; 16]);
    body.extend_from_slice(&2i16.to_be_bytes());
    body.push(1);
    body.extend_from_slice(&[4; 16]);
    body.extend_from_slice(b"ciphertext");
    match parse_request(FrameType::UploadEnvelope, &body).unwrap() {
        ApiRequest::Upload { access_token, operation: Ok(op) } => {
            assert_eq!(access_token, [9; 32]);
            assert_eq!(op.code(), 1);
            match op {
                UploadOperation::Event { event_kind, correlation_id, ciphertext, .. } => {
                    assert_eq!(event_kind, 2);
                    assert_eq!(correlation_id, Some([4; 16]));
                    assert_eq!(ciphertext, b"ciphertext".to_vec());
                }
                _ => panic!("wrong operation"),
            }
        }
        _ => panic!("wrong request"),
    }
    let mut bad = vec![9u8; 32];
    bad.push(7);
    assert!(matches!(
        parse_request(FrameType::UploadEnvelope, &bad),
        Ok(ApiRequest::Upload { operation: Err(ApiError::InvalidInput), .. })
    ));
    assert!(matches!(parse_request(FrameType::UploadEnvelope, &[9; 31]), Err(ApiError::InvalidInput)));
    let mut membership = vec![9u8; 32];
    membership.push(4);
    membership.extend_from_slice(&[1; 48]);
    membership.push(2);
    membership.push(2);
    membership.extend_from_slice(&[0; 64]);
    assert!(matches!(
        parse_request(FrameType::UploadEnvelope, &membership),
        Ok(ApiRequest::Upload { operation: Err(ApiError::InvalidInput), .. })
    ));
    membership[82] = 1;
    assert!(matches!(
        parse_request(FrameType::UploadEnvelope, &membership),
        Ok(ApiRequest::Upload { operation: Ok(UploadOperation::Membership { role: 2, remove: true, .. }), .. })
    ));
}

#[test]
fn sync_and_receipt_requests() {
    let mut body = vec![9u8; 32];
    body.push(1);
    body.extend_from_slice(&42u64.to_be_bytes());
    body.push(10);
    assert!(matches!(
        parse_request(FrameType::SyncRequest, &body),
        Ok(ApiRequest::Sync { operation: Ok(SyncOperation::Events { group_id: None, after: 42, limit: 10 }), .. })
    ));
    let mut receipts = vec![9u8; 32];
    receipts.push(2);
    receipts.extend_from_slice(&[1; 16]);
    receipts.extend_from_slice(&[2; 16]);
    match parse_request(FrameType::ReadReceiptBatch, &receipts).unwrap() {
        ApiRequest::Receipts { receipt_type, event_ids: Ok(ids), .. } => {
            assert_eq!(receipt_type, 2);
            assert_eq!(ids, vec![[1; 16], [2; 16]]);
        }
        _ => panic!("wrong request"),
    }
    let mut too_many = vec![9u8; 32];
    too_many.push(51);
    assert!(matches!(
        parse_request(FrameType::DeliveryReceiptBatch, &too_many),
        Ok(ApiRequest::Receipts { event_ids: Err(ApiError::InvalidInput), .. })
    ));
    let mut recovery = vec![1u8];
    recovery.extend_from_slice(&[6; 32]);
    assert!(matches!(parse_request(FrameType::RelayDirectoryRequest, &recovery), Ok(ApiRequest::FetchRecovery { .. })));
    recovery[0] = 2;
    assert!(matches!(parse_request(FrameType::RelayDirectoryRequest, &recovery), Err(ApiError::InvalidInput)));
    assert!(matches!(parse_request(FrameType::Pong, &[]), Err(ApiError::InvalidInput)));
}

#[test]
fn answers_are_laid_out_exactly() {
    let mut expected = vec![1u8];
    expected.extend_from_slice(&42u64.to_be_bytes());
    expected.push(1);
    assert_eq!(upload_event_body(UploadAccepted { cursor: 42, duplicate: true }), expected);
    assert_eq!(membership_body(false), vec![4, 0]);
    assert_eq!(upload_ack_body(6), vec![6]);
    let events = vec![SyncEvent { cursor: 7, event_id: [1; 16], event_kind: 2, ciphertext: vec![9, 8] }];
    let mut page = vec![0u8, 1];
    page.extend_from_slice(&7u64.to_be_bytes());
    page.extend_from_slice(&[1; 16]);
    page.extend_from_slice(&2i16.to_be_bytes());
    page.extend_from_slice(&2u32.to_be_bytes());
    page.extend_from_slice(&[9, 8]);
    assert_eq!(sync_events_body(0, &events), page);
    assert_eq!(key_package_body(&None), vec![2, 0]);
    assert_eq!(key_package_body(&Some(([3; 16], vec![5]))).len(), 2 + 16 + 1);
    assert_eq!(welcomes_body(&vec![([1; 16], [2; 16], vec![3])]).len(), 2 + 32 + 4 + 1);
    assert_eq!(recovery_body(&Some(vec![7])), vec![1, 1, 7]);
    assert_eq!(recovery_body(&None), vec![1, 0]);
    assert_eq!(challenge_body(&Challenge { challenge_id: [1; 16], challenge: [2; 32] }).len(), 48);
    assert_eq!(tokens_body(&SessionTokens { access_token: [1; 32], refresh_token: [2; 32] }).len(), 64);
}

#[test]
fn errors_and_frames() {
    assert_eq!(map_error(ApiError::Expired), (401, ErrorCode::Replay));
    assert_eq!(map_error(ApiError::TokenReuse), (409, ErrorCode::Replay));
    assert_eq!(map_error(ApiError::Conflict), (409, ErrorCode::Duplicate));
    assert_eq!(map_error(ApiError::CursorRegression), (409, ErrorCode::CursorRegression));
    assert_eq!(map_error(ApiError::InvalidInput), (400, ErrorCode::Malformed));
    assert_eq!(map_error(ApiError::Database), (500, ErrorCode::Malformed));
    let e = error_frame(Id([3; 16]), ErrorCode::RateLimited);
    assert_eq!(e.kind, FrameType::Error);
    assert_eq!(e.body, vec![6]);
    let request = TransportFrame {
        version: PROTOCOL_VERSION,
        kind: FrameType::Ping,
        client_message_id: Id([5; 16]),
        ttl_seconds: 9,
        body: vec![1],
    };
    let answer = response_frame(&request, response_kind(request.kind), vec![1]);
    assert_eq!(answer.kind, FrameType::Pong);
    assert_eq!(answer.client_message_id, Id([5; 16]));
    assert_eq!(answer.ttl_seconds, 0);
    assert_eq!(&rate_limit_scope(&Id([1; 16]))[..9], b"frame/v1/");
    assert!(long_poll_accepts(FrameType::SyncRequest));
    assert!(!long_poll_accepts(FrameType::Ping));
    let empty = response_frame(&request, FrameType::SyncBatch, vec![1, 0]);
    assert!(is_empty_sync_page(&empty));
    let full = response_frame(&request, FrameType::SyncBatch, vec![1, 1]);
    assert!(!is_empty_sync_page(&full));
}

#[test]
fn binary_requests_are_refused_rate_limit_first() {
    assert_eq!(binary_rejection(FrameType::Ping, true, true), Some((429, ErrorCode::RateLimited)));
    assert_eq!(binary_rejection(FrameType::Ping, true, false), Some((400, ErrorCode::Malformed)));
    assert_eq!(binary_rejection(FrameType::SyncRequest, true, false), None);
    assert_eq!(binary_rejection(FrameType::Ping, false, false), None);
}
