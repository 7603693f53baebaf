//! The decisions of the stateless relay, which forwards opaque frames to the delivery
//! service and answers with what the service answered.
use crate::protocol::{spec_decode_frame, FrameType, TransportFrame};
use vstd::prelude::*;

verus! {

/// The status with which the relay refuses a frame that does not decode.
pub const RELAY_BAD_REQUEST: u16 = 400;

/// The status with which the relay reports that the delivery service failed.
pub const RELAY_BAD_GATEWAY: u16 = 502;

/// The relay's error body: the CBOR array `[1, status]`, the status capped at 255.
pub open spec fn relay_error_bytes(status: u16) -> Seq<u8> {
    seq![0x82u8, 0x01u8, if status < 255 { status as u8 } else { 255u8 }]
}

pub fn relay_error_body(status: u16) -> (r: Vec<u8>)
    ensures
        r@ == relay_error_bytes(status),
{
    let mut out: Vec<u8> = Vec::new();
    out.push(0x82u8);
    out.push(0x01u8);
    out.push(if status < 255 { status as u8 } else { 255u8 });
    assert(out@ =~= relay_error_bytes(status));
    out
}

/// A frame is forwarded only if it decodes; else it is refused as a bad request.
pub fn check_inbound_frame(body: &[u8]) -> (r: Result<(), u16>)
    ensures
        r is Ok <==> spec_decode_frame(body@) is Ok,
        r is Err ==> r == Err::<(), u16>(RELAY_BAD_REQUEST),
{
    match TransportFrame::decode(body) {
        Ok(_) => Ok(()),
        Err(_) => Err(RELAY_BAD_REQUEST),
    }
}

/// Whether a WebSocket frame is a sync request, which the relay forwards as a long poll.
pub fn is_long_poll_frame(body: &[u8]) -> (r: bool)
    ensures
        r == (spec_decode_frame(body@) matches Ok(f) && f.kind == FrameType::SyncRequest),
{
    match TransportFrame::decode(body) {
        Ok(frame) => frame.kind == FrameType::SyncRequest,
        Err(_) => false,
    }
}

/// The service's answer is passed on only if the service succeeded and the answer is a
/// frame; else the relay reports a bad gateway.
pub fn check_core_response(success: bool, body: &[u8]) -> (r: Result<(), u16>)
    ensures
        r is Ok <==> (success && spec_decode_frame(body@) is Ok),
        r is Err ==> r == Err::<(), u16>(RELAY_BAD_GATEWAY),
{
    if !success {
        return Err(RELAY_BAD_GATEWAY);
    }
    match TransportFrame::decode(body) {
        Ok(_) => Ok(()),
        Err(_) => Err(RELAY_BAD_GATEWAY),
    }
}

/// What arrived on a relay WebSocket.
#[derive(Clone, Copy, Debug, PartialEq, Eq, Structural)]
pub enum SocketInput {
    Binary,
    Ping,
    Close,
    Failure,
    Other,
}

/// What the relay does with it.
#[derive(Clone, Copy, Debug, PartialEq, Eq, Structural)]
pub enum SocketAction {
    /// Forward the binary frame to the delivery service.
    Forward,
    /// Answer the ping with a pong carrying the same payload.
    Pong,
    /// End the connection.
    Stop,
    /// Ignore the message and read the next one.
    Skip,
}

pub fn socket_action(input: SocketInput) -> (r: SocketAction)
    ensures
        r == match input {
            SocketInput::Binary => SocketAction::Forward,
            SocketInput::Ping => SocketAction::Pong,
            SocketInput::Close | SocketInput::Failure => SocketAction::Stop,
            SocketInput::Other => SocketAction::Skip,
        },
{
    match input {
        SocketInput::Binary => SocketAction::Forward,
        SocketInput::Ping => SocketAction::Pong,
        SocketInput::Close | SocketInput::Failure => SocketAction::Stop,
        SocketInput::Other => SocketAction::Skip,
    }
}

} // verus!
