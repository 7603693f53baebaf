//! The binary API of the delivery service: how a request frame's body reads, and how
//! answers and errors are laid out.
//!
//! A request is read into an `ApiRequest` before the service touches its database.
//! Where the service authenticates the caller before it reads the rest of a body, the
//! rest is kept as a `Result`, so that a bad token is reported before a malformed tail.
use crate::bytes::{
    array16_at, array32_at, array64_at, be16, be16_value, be32, be64, be64_value, push_be16, push_be32,
    push_be64, push_bytes, read_be16, read_be64,
};
use crate::delivery::{ApiError, Challenge, SessionTokens, SyncEvent, UploadAccepted};
use crate::identity::DeviceCertificate;
use crate::protocol::{ErrorCode, FrameType, Id, TransportFrame, PROTOCOL_VERSION};
use vstd::prelude::*;

verus! {

/// The most event IDs that one receipt batch may carry.
pub const MAX_RECEIPT_BATCH: u8 = 50;

/// How many frames one client message ID may send per window.
pub const FRAME_RATE_LIMIT: i32 = 120;

/// The rate-limit window of frames, in seconds.
pub const FRAME_RATE_WINDOW_SECONDS: i64 = 60;

/// An upload, after the access token.
#[allow(inconsistent_fields)]
pub enum UploadOperation {
    /// Operation 1: an encrypted group event.
    Event {
        group_id: [u8; 16],
        event_id: [u8; 16],
        event_kind: i16,
        correlation_id: Option<[u8; 16]>,
        ciphertext: Vec<u8>,
    },
    /// Operation 2: a key package.
    KeyPackage { package_id: [u8; 16], package: Vec<u8> },
    /// Operation 3: a new group.
    CreateGroup { group_id: [u8; 16] },
    /// Operation 4: a signed membership operation.
    Membership {
        correlation_id: [u8; 16],
        group_id: [u8; 16],
        target_device_id: [u8; 16],
        role: i16,
        remove: bool,
        signature: [u8; 64],
    },
    /// Operation 5: a Welcome for a new member's device.
    Welcome { target_device_id: [u8; 16], group_id: [u8; 16], welcome_id: [u8; 16], welcome: Vec<u8> },
    /// Operation 6: an encrypted recovery package.
    RecoveryPackage { recovery_identifier: [u8; 32], blob: Vec<u8> },
}

/// A sync request, after the access token.
pub enum SyncOperation {
    /// Operation 0 (one group) or 1 (every group): events after a cursor.
    Events { group_id: Option<[u8; 16]>, after: i64, limit: i64 },
    /// Operation 2: one key package of a device.
    KeyPackage { target_device_id: [u8; 16] },
    /// Operation 3: pending Welcomes.
    Welcomes { limit: i64 },
}

/// A request of the binary API.
#[allow(inconsistent_fields)]
pub enum ApiRequest {
    RegisterDevice { account_id: [u8; 32], root_public_key: [u8; 32], certificate: DeviceCertificate },
    /// A challenge for a device; `trailing_bytes` tells that the body went on after the
    /// device ID, which the service reports only after it issued the challenge.
    BeginChallenge { device_id: [u8; 16], trailing_bytes: bool },
    CompleteChallenge { challenge_id: [u8; 16], signature: [u8; 64] },
    RotateRefresh { device_id: [u8; 16], refresh_token: [u8; 32], signature: [u8; 64] },
    Upload { access_token: [u8; 32], operation: Result<UploadOperation, ApiError> },
    Sync { access_token: [u8; 32], operation: Result<SyncOperation, ApiError> },
    FetchRecovery { recovery_identifier: [u8; 32] },
    Receipts { access_token: [u8; 32], receipt_type: i16, event_ids: Result<Vec<[u8; 16]>, ApiError> },
    Ping { body: Vec<u8> },
}

// ---------------------------------------------------------------------------
// Views
// ---------------------------------------------------------------------------
#[allow(inconsistent_fields)]
pub enum UploadView {
    Event {
        group_id: Seq<u8>,
        event_id: Seq<u8>,
        event_kind: i16,
        correlation_id: Option<Seq<u8>>,
        ciphertext: Seq<u8>,
    },
    KeyPackage { package_id: Seq<u8>, package: Seq<u8> },
    CreateGroup { group_id: Seq<u8> },
    Membership {
        correlation_id: Seq<u8>,
        group_id: Seq<u8>,
        target_device_id: Seq<u8>,
        role: i16,
        remove: bool,
        signature: Seq<u8>,
    },
    Welcome { target_device_id: Seq<u8>, group_id: Seq<u8>, welcome_id: Seq<u8>, welcome: Seq<u8> },
    RecoveryPackage { recovery_identifier: Seq<u8>, blob: Seq<u8> },
}

pub enum SyncView {
    Events { group_id: Option<Seq<u8>>, after: i64, limit: i64 },
    KeyPackage { target_device_id: Seq<u8> },
    Welcomes { limit: i64 },
}

#[allow(inconsistent_fields)]
pub enum RequestView {
    /// The certificate as its device ID, device public key, issue time and signature.
    RegisterDevice {
        account_id: Seq<u8>,
        root_public_key: Seq<u8>,
        certificate: (Seq<u8>, Seq<u8>, u64, Seq<u8>),
    },
    BeginChallenge { device_id: Seq<u8>, trailing_bytes: bool },
    CompleteChallenge { challenge_id: Seq<u8>, signature: Seq<u8> },
    RotateRefresh { device_id: Seq<u8>, refresh_token: Seq<u8>, signature: Seq<u8> },
    Upload { access_token: Seq<u8>, operation: Result<UploadView, ApiError> },
    Sync { access_token: Seq<u8>, operation: Result<SyncView, ApiError> },
    FetchRecovery { recovery_identifier: Seq<u8> },
    Receipts { access_token: Seq<u8>, receipt_type: i16, event_ids: Result<Seq<Seq<u8>>, ApiError> },
    Ping { body: Seq<u8> },
}

/// The view of an optional 16-byte ID.
pub open spec fn opt_id_view(id: Option<[u8; 16]>) -> Option<Seq<u8>> {
    match id {
        Some(x) => Some(x@),
        None => None,
    }
}

impl View for UploadOperation {
    type V = UploadView;

    open spec fn view(&self) -> UploadView {
        match self {
            UploadOperation::Event { group_id, event_id, event_kind, correlation_id, ciphertext } => {
                UploadView::Event {
                    group_id: group_id@,
                    event_id: event_id@,
                    event_kind: *event_kind,
                    correlation_id: opt_id_view(*correlation_id),
                    ciphertext: ciphertext@,
                }
            },
            UploadOperation::KeyPackage { package_id, package } => UploadView::KeyPackage {
                package_id: package_id@,
                package: package@,
            },
            UploadOperation::CreateGroup { group_id } => UploadView::CreateGroup { group_id: group_id@ },
            UploadOperation::Membership {
                correlation_id,
                group_id,
                target_device_id,
                role,
                remove,
                signature,
            } => UploadView::Membership {
                correlation_id: correlation_id@,
                group_id: group_id@,
                target_device_id: target_device_id@,
                role: *role,
                remove: *remove,
                signature: signature@,
            },
            UploadOperation::Welcome { target_device_id, group_id, welcome_id, welcome } => {
                UploadView::Welcome {
                    target_device_id: target_device_id@,
                    group_id: group_id@,
                    welcome_id: welcome_id@,
                    welcome: welcome@,
                }
            },
            UploadOperation::RecoveryPackage { recovery_identifier, blob } => {
                UploadView::RecoveryPackage { recovery_identifier: recovery_identifier@, blob: blob@ }
            },
        }
    }
}

impl View for SyncOperation {
    type V = SyncView;

    open spec fn view(&self) -> SyncView {
        match self {
            SyncOperation::Events { group_id, after, limit } => SyncView::Events {
                group_id: opt_id_view(*group_id),
                after: *after,
                limit: *limit,
            },
            SyncOperation::KeyPackage { target_device_id } => SyncView::KeyPackage {
                target_device_id: target_device_id@,
            },
            SyncOperation::Welcomes { limit } => SyncView::Welcomes { limit: *limit },
        }
    }
}

/// The views of a list of 16-byte IDs.
pub open spec fn ids_view(ids: Seq<[u8; 16]>) -> Seq<Seq<u8>> {
    ids.map_values(|x: [u8; 16]| x@)
}

impl View for ApiRequest {
    type V = RequestView;

    open spec fn view(&self) -> RequestView {
        match self {
            ApiRequest::RegisterDevice { account_id, root_public_key, certificate } => {
                RequestView::RegisterDevice {
                    account_id: account_id@,
                    root_public_key: root_public_key@,
                    certificate: (
                        certificate.device_id@,
                        certificate.device_public_key@,
                        certificate.issued_at,
                        certificate.signature@,
                    ),
                }
            },
            ApiRequest::BeginChallenge { device_id, trailing_bytes } => RequestView::BeginChallenge {
                device_id: device_id@,
                trailing_bytes: *trailing_bytes,
            },
            ApiRequest::CompleteChallenge { challenge_id, signature } => RequestView::CompleteChallenge {
                challenge_id: challenge_id@,
                signature: signature@,
            },
            ApiRequest::RotateRefresh { device_id, refresh_token, signature } => RequestView::RotateRefresh {
                device_id: device_id@,
                refresh_token: refresh_token@,
                signature: signature@,
            },
            ApiRequest::Upload { access_token, operation } => RequestView::Upload {
                access_token: access_token@,
                operation: match operation {
                    Ok(op) => Ok(op@),
                    Err(e) => Err(*e),
                },
            },
            ApiRequest::Sync { access_token, operation } => RequestView::Sync {
                access_token: access_token@,
                operation: match operation {
                    Ok(op) => Ok(op@),
                    Err(e) => Err(*e),
                },
            },
            ApiRequest::FetchRecovery { recovery_identifier } => RequestView::FetchRecovery {
                recovery_identifier: recovery_identifier@,
            },
            ApiRequest::Receipts { access_token, receipt_type, event_ids } => RequestView::Receipts {
                access_token: access_token@,
                receipt_type: *receipt_type,
                event_ids: match event_ids {
                    Ok(ids) => Ok(ids_view(ids@)),
                    Err(e) => Err(*e),
                },
            },
            ApiRequest::Ping { body } => RequestView::Ping { body: body@ },
        }
    }
}

// ---------------------------------------------------------------------------
// How a body reads
// ---------------------------------------------------------------------------
/// `n` bytes of `b` from `i`.
pub open spec fn field(b: Seq<u8>, i: int, n: int) -> Seq<u8> {
    b.subrange(i, i + n)
}

/// An upload after the 32-byte access token: the operation byte, then its fields.
pub open spec fn spec_upload_operation(b: Seq<u8>) -> Result<UploadView, ApiError> {
    if b.len() < 33 {
        Err(ApiError::InvalidInput)
    } else if b[32] == 1 {
        if b.len() < 68 || b[67] > 1 || (b[67] == 1 && b.len() < 84) {
            Err(ApiError::InvalidInput)
        } else {
            let tail = if b[67] == 1 { 84 } else { 68 };
            Ok(
                UploadView::Event {
                    group_id: field(b, 33, 16),
                    event_id: field(b, 49, 16),
                    event_kind: be16_value(field(b, 65, 2)) as i16,
                    correlation_id: if b[67] == 1 { Some(field(b, 68, 16)) } else { None },
                    ciphertext: b.subrange(tail, b.len() as int),
                },
            )
        }
    } else if b[32] == 2 {
        if b.len() < 49 {
            Err(ApiError::InvalidInput)
        } else {
            Ok(UploadView::KeyPackage { package_id: field(b, 33, 16), package: b.subrange(49, b.len() as int) })
        }
    } else if b[32] == 3 {
        if b.len() != 49 {
            Err(ApiError::InvalidInput)
        } else {
            Ok(UploadView::CreateGroup { group_id: field(b, 33, 16) })
        }
    } else if b[32] == 4 {
        if b.len() < 83 || b[82] > 1 || b.len() != 147 {
            Err(ApiError::InvalidInput)
        } else {
            Ok(
                UploadView::Membership {
                    correlation_id: field(b, 33, 16),
                    group_id: field(b, 49, 16),
                    target_device_id: field(b, 65, 16),
                    role: b[81] as i16,
                    remove: b[82] == 1,
                    signature: field(b, 83, 64),
                },
            )
        }
    } else if b[32] == 5 {
        if b.len() < 81 {
            Err(ApiError::InvalidInput)
        } else {
            Ok(
                UploadView::Welcome {
                    target_device_id: field(b, 33, 16),
                    group_id: field(b, 49, 16),
                    welcome_id: field(b, 65, 16),
                    welcome: b.subrange(81, b.len() as int),
                },
            )
        }
    } else if b[32] == 6 {
        if b.len() < 65 {
            Err(ApiError::InvalidInput)
        } else {
            Ok(
                UploadView::RecoveryPackage {
                    recovery_identifier: field(b, 33, 32),
                    blob: b.subrange(65, b.len() as int),
                },
            )
        }
    } else {
        Err(ApiError::InvalidInput)
    }
}

/// A sync request after the 32-byte access token: the operation byte, then its fields.
pub open spec fn spec_sync_operation(b: Seq<u8>) -> Result<SyncView, ApiError> {
    if b.len() < 33 {
        Err(ApiError::InvalidInput)
    } else if b[32] == 0 {
        if b.len() != 58 {
            Err(ApiError::InvalidInput)
        } else {
            Ok(
                SyncView::Events {
                    group_id: Some(field(b, 33, 16)),
                    after: be64_value(field(b, 49, 8)) as i64,
                    limit: b[57] as i64,
                },
            )
        }
    } else if b[32] == 1 {
        if b.len() != 42 {
            Err(ApiError::InvalidInput)
        } else {
            Ok(SyncView::Events { group_id: None, after: be64_value(field(b, 33, 8)) as i64, limit: b[41] as i64 })
        }
    } else if b[32] == 2 {
        if b.len() != 49 {
            Err(ApiError::InvalidInput)
        } else {
            Ok(SyncView::KeyPackage { target_device_id: field(b, 33, 16) })
        }
    } else if b[32] == 3 {
        if b.len() != 34 {
            Err(ApiError::InvalidInput)
        } else {
            Ok(SyncView::Welcomes { limit: b[33] as i64 })
        }
    } else {
        Err(ApiError::InvalidInput)
    }
}

/// The event IDs of a receipt batch after the 32-byte access token: a count of at most
/// 50, then that many IDs and nothing more.
pub open spec fn spec_receipt_ids(b: Seq<u8>) -> Result<Seq<Seq<u8>>, ApiError> {
    if b.len() < 33 || b[32] > MAX_RECEIPT_BATCH || b.len() != 33 + 16 * b[32] {
        Err(ApiError::InvalidInput)
    } else {
        Ok(Seq::new(b[32] as nat, |i: int| field(b, 33 + 16 * i, 16)))
    }
}

/// What a request frame of `kind` with body `b` asks for.
pub open spec fn spec_parse_request(kind: FrameType, b: Seq<u8>) -> Result<RequestView, ApiError> {
    match kind {
        FrameType::ClientHello => if b.len() != 184 {
            Err(ApiError::InvalidInput)
        } else {
            Ok(
                RequestView::RegisterDevice {
                    account_id: field(b, 0, 32),
                    root_public_key: field(b, 32, 32),
                    certificate: (
                        field(b, 64, 16),
                        field(b, 80, 32),
                        be64_value(field(b, 112, 8)),
                        field(b, 120, 64),
                    ),
                },
            )
        },
        FrameType::AuthChallenge => if b.len() < 16 {
            Err(ApiError::InvalidInput)
        } else {
            Ok(RequestView::BeginChallenge { device_id: field(b, 0, 16), trailing_bytes: b.len() != 16 })
        },
        FrameType::AuthResponse => if b.len() == 80 {
            Ok(RequestView::CompleteChallenge { challenge_id: field(b, 0, 16), signature: field(b, 16, 64) })
        } else if b.len() == 112 {
            Ok(
                RequestView::RotateRefresh {
                    device_id: field(b, 0, 16),
                    refresh_token: field(b, 16, 32),
                    signature: field(b, 48, 64),
                },
            )
        } else {
            Err(ApiError::InvalidInput)
        },
        FrameType::UploadEnvelope => if b.len() < 32 {
            Err(ApiError::InvalidInput)
        } else {
            Ok(RequestView::Upload { access_token: field(b, 0, 32), operation: spec_upload_operation(b) })
        },
        FrameType::SyncRequest => if b.len() < 32 {
            Err(ApiError::InvalidInput)
        } else {
            Ok(RequestView::Sync { access_token: field(b, 0, 32), operation: spec_sync_operation(b) })
        },
        FrameType::RelayDirectoryRequest => if b.len() != 33 || b[0] != 1 {
            Err(ApiError::InvalidInput)
        } else {
            Ok(RequestView::FetchRecovery { recovery_identifier: field(b, 1, 32) })
        },
        FrameType::DeliveryReceiptBatch => if b.len() < 32 {
            Err(ApiError::InvalidInput)
        } else {
            Ok(RequestView::Receipts { access_token: field(b, 0, 32), receipt_type: 1, event_ids: spec_receipt_ids(b) })
        },
        FrameType::ReadReceiptBatch => if b.len() < 32 {
            Err(ApiError::InvalidInput)
        } else {
            Ok(RequestView::Receipts { access_token: field(b, 0, 32), receipt_type: 2, event_ids: spec_receipt_ids(b) })
        },
        FrameType::Ping => Ok(RequestView::Ping { body: b }),
        _ => Err(ApiError::InvalidInput),
    }
}

struct Reader<'a> {
    bytes: &'a [u8],
    position: usize,
}

impl<'a> Reader<'a> {
    fn new(bytes: &'a [u8]) -> (r: Reader<'a>)
        ensures
            r.bytes@ == bytes@,
            r.position == 0,
    {
        Reader { bytes, position: 0 }
    }

    fn take(&mut self, count: usize) -> (r: Result<&'a [u8], ApiError>)
        requires
            old(self).position <= old(self).bytes@.len(),
        ensures
            final(self).bytes@ == old(self).bytes@,
            final(self).position <= final(self).bytes@.len(),
            old(self).position + count <= old(self).bytes@.len() ==> (r matches Ok(t) && t@
                == field(old(self).bytes@, old(self).position as int, count as int) && final(self).position
                == old(self).position + count),
            old(self).position + count > old(self).bytes@.len() ==> r == Err::<&'a [u8], ApiError>(
                ApiError::InvalidInput,
            ),
    {
        if count > self.bytes.len() - self.position {
            return Err(ApiError::InvalidInput);
        }
        let end = self.position + count;
        let value = vstd::slice::slice_subrange(self.bytes, self.position, end);
        self.position = end;
        Ok(value)
    }

    fn array16(&mut self) -> (r: Result<[u8; 16], ApiError>)
        requires
            old(self).position <= old(self).bytes@.len(),
        ensures
            final(self).bytes@ == old(self).bytes@,
            final(self).position <= final(self).bytes@.len(),
            old(self).position + 16 <= old(self).bytes@.len() ==> (r matches Ok(t) && t@ == field(
                old(self).bytes@,
                old(self).position as int,
                16,
            ) && final(self).position == old(self).position + 16),
            old(self).position + 16 > old(self).bytes@.len() ==> r == Err::<[u8; 16], ApiError>(
                ApiError::InvalidInput,
            ),
    {
        let t = self.take(16)?;
        Ok(array16_at(t, 0))
    }

    fn array32(&mut self) -> (r: Result<[u8; 32], ApiError>)
        requires
            old(self).position <= old(self).bytes@.len(),
        ensures
            final(self).bytes@ == old(self).bytes@,
            final(self).position <= final(self).bytes@.len(),
            old(self).position + 32 <= old(self).bytes@.len() ==> (r matches Ok(t) && t@ == field(
                old(self).bytes@,
                old(self).position as int,
                32,
            ) && final(self).position == old(self).position + 32),
            old(self).position + 32 > old(self).bytes@.len() ==> r == Err::<[u8; 32], ApiError>(
                ApiError::InvalidInput,
            ),
    {
        let t = self.take(32)?;
        Ok(array32_at(t, 0))
    }

    fn array64(&mut self) -> (r: Result<[u8; 64], ApiError>)
        requires
            old(self).position <= old(self).bytes@.len(),
        ensures
            final(self).bytes@ == old(self).bytes@,
            final(self).position <= final(self).bytes@.len(),
            old(self).position + 64 <= old(self).bytes@.len() ==> (r matches Ok(t) && t@ == field(
                old(self).bytes@,
                old(self).position as int,
                64,
            ) && final(self).position == old(self).position + 64),
            old(self).position + 64 > old(self).bytes@.len() ==> r == Err::<[u8; 64], ApiError>(
                ApiError::InvalidInput,
            ),
    {
        let t = self.take(64)?;
        Ok(array64_at(t, 0))
    }

    fn u8(&mut self) -> (r: Result<u8, ApiError>)
        requires
            old(self).position <= old(self).bytes@.len(),
        ensures
            final(self).bytes@ == old(self).bytes@,
            final(self).position <= final(self).bytes@.len(),
            old(self).position + 1 <= old(self).bytes@.len() ==> (r == Ok::<u8, ApiError>(
                old(self).bytes@[old(self).position as int],
            ) && final(self).position == old(self).position + 1),
            old(self).position + 1 > old(self).bytes@.len() ==> r == Err::<u8, ApiError>(
                ApiError::InvalidInput,
            ),
    {
        let t = self.take(1)?;
        Ok(t[0])
    }

    fn i16(&mut self) -> (r: Result<i16, ApiError>)
        requires
            old(self).position <= old(self).bytes@.len(),
        ensures
            final(self).bytes@ == old(self).bytes@,
            final(self).position <= final(self).bytes@.len(),
            old(self).position + 2 <= old(self).bytes@.len() ==> (r == Ok::<i16, ApiError>(
                be16_value(field(old(self).bytes@, old(self).position as int, 2)) as i16,
            ) && final(self).position == old(self).position + 2),
            old(self).position + 2 > old(self).bytes@.len() ==> r == Err::<i16, ApiError>(
                ApiError::InvalidInput,
            ),
    {
        let t = self.take(2)?;
        Ok(read_be16(t, 0) as i16)
    }

    fn u64(&mut self) -> (r: Result<u64, ApiError>)
        requires
            old(self).position <= old(self).bytes@.len(),
        ensures
            final(self).bytes@ == old(self).bytes@,
            final(self).position <= final(self).bytes@.len(),
            old(self).position + 8 <= old(self).bytes@.len() ==> (r == Ok::<u64, ApiError>(
                be64_value(field(old(self).bytes@, old(self).position as int, 8)),
            ) && final(self).position == old(self).position + 8),
            old(self).position + 8 > old(self).bytes@.len() ==> r == Err::<u64, ApiError>(
                ApiError::InvalidInput,
            ),
    {
        let t = self.take(8)?;
        Ok(read_be64(t, 0))
    }

    fn rest(&mut self) -> (r: &'a [u8])
        requires
            old(self).position <= old(self).bytes@.len(),
        ensures
            final(self).bytes@ == old(self).bytes@,
            r@ == old(self).bytes@.subrange(old(self).position as int, old(self).bytes@.len() as int),
            final(self).position == final(self).bytes@.len(),
    {
        let value = vstd::slice::slice_subrange(self.bytes, self.position, self.bytes.len());
        self.position = self.bytes.len();
        value
    }

    fn remaining_len(&self) -> (r: usize)
        requires
            self.position <= self.bytes@.len(),
        ensures
            r == self.bytes@.len() - self.position,
    {
        self.bytes.len() - self.position
    }

    fn finish(&self) -> (r: Result<(), ApiError>)
        ensures
            r is Ok <==> self.position == self.bytes@.len(),
            r is Err ==> r == Err::<(), ApiError>(ApiError::InvalidInput),
    {
        if self.position == self.bytes.len() {
            Ok(())
        } else {
            Err(ApiError::InvalidInput)
        }
    }
}

fn read_upload_operation(body: &mut Reader) -> (r: Result<UploadOperation, ApiError>)
    requires
        old(body).position == 32,
        32 <= old(body).bytes@.len(),
    ensures
        match spec_upload_operation(old(body).bytes@) {
            Ok(v) => r matches Ok(x) && x@ == v,
            Err(e) => r matches Err(x) && x == e,
        },
{
    let ghost b = body.bytes@;
    let operation = body.u8()?;
    if operation == 1 {
        let group_id = body.array16()?;
        let event_id = body.array16()?;
        let event_kind = body.i16()?;
        let flag = body.u8()?;
        let correlation_id = if flag == 0 {
            None
        } else if flag == 1 {
            Some(body.array16()?)
        } else {
            return Err(ApiError::InvalidInput);
        };
        let ciphertext = vstd::slice::slice_to_vec(body.rest());
        Ok(UploadOperation::Event { group_id, event_id, event_kind, correlation_id, ciphertext })
    } else if operation == 2 {
        let package_id = body.array16()?;
        let package = vstd::slice::slice_to_vec(body.rest());
        Ok(UploadOperation::KeyPackage { package_id, package })
    } else if operation == 3 {
        let group_id = body.array16()?;
        body.finish()?;
        Ok(UploadOperation::CreateGroup { group_id })
    } else if operation == 4 {
        let correlation_id = body.array16()?;
        let group_id = body.array16()?;
        let target_device_id = body.array16()?;
        let role = body.u8()? as i16;
        let remove = match body.u8()? {
            0 => false,
            1 => true,
            _ => {
                return Err(ApiError::InvalidInput);
            },
        };
        let signature = body.array64()?;
        body.finish()?;
        Ok(
            UploadOperation::Membership {
                correlation_id,
                group_id,
                target_device_id,
                role,
                remove,
                signature,
            },
        )
    } else if operation == 5 {
        let target_device_id = body.array16()?;
        let group_id = body.array16()?;
        let welcome_id = body.array16()?;
        let welcome = vstd::slice::slice_to_vec(body.rest());
        Ok(UploadOperation::Welcome { target_device_id, group_id, welcome_id, welcome })
    } else if operation == 6 {
        let recovery_identifier = body.array32()?;
        let blob = vstd::slice::slice_to_vec(body.rest());
        Ok(UploadOperation::RecoveryPackage { recovery_identifier, blob })
    } else {
        Err(ApiError::InvalidInput)
    }
}

fn read_sync_operation(body: &mut Reader) -> (r: Result<SyncOperation, ApiError>)
    requires
        old(body).position == 32,
        32 <= old(body).bytes@.len(),
    ensures
        match spec_sync_operation(old(body).bytes@) {
            Ok(v) => r matches Ok(x) && x@ == v,
            Err(e) => r matches Err(x) && x == e,
        },
{
    let operation = body.u8()?;
    if operation == 0 || operation == 1 {
        let group_id = if operation == 0 {
            Some(body.array16()?)
        } else {
            None
        };
        let after = body.u64()? as i64;
        let limit = body.u8()? as i64;
        body.finish()?;
        Ok(SyncOperation::Events { group_id, after, limit })
    } else if operation == 2 {
        let target_device_id = body.array16()?;
        body.finish()?;
        Ok(SyncOperation::KeyPackage { target_device_id })
    } else if operation == 3 {
        let limit = body.u8()? as i64;
        body.finish()?;
        Ok(SyncOperation::Welcomes { limit })
    } else {
        Err(ApiError::InvalidInput)
    }
}

fn read_receipt_ids(body: &mut Reader) -> (r: Result<Vec<[u8; 16]>, ApiError>)
    requires
        old(body).position == 32,
        32 <= old(body).bytes@.len(),
    ensures
        match spec_receipt_ids(old(body).bytes@) {
            Ok(v) => r matches Ok(x) && ids_view(x@) == v,
            Err(e) => r matches Err(x) && x == e,
        },
{
    let ghost b = body.bytes@;
    let count = body.u8()?;
    if count > MAX_RECEIPT_BATCH {
        return Err(ApiError::InvalidInput);
    }
    let mut event_ids: Vec<[u8; 16]> = Vec::new();
    let mut k: u8 = 0;
    while k < count
        invariant
            body.bytes@ == b,
            b == old(body).bytes@,
            b.len() >= 33,
            count == b[32],
            count <= MAX_RECEIPT_BATCH,
            0 <= k <= count,
            body.position == 33 + 16 * k,
            body.position <= b.len(),
            event_ids@.len() == k,
            forall|i: int| 0 <= i < k ==> (#[trigger] event_ids@[i])@ == field(b, 33 + 16 * i, 16),
        decreases count - k,
    {
        let id = body.array16()?;
        event_ids.push(id);
        k = k + 1;
    }
    body.finish()?;
    assert(ids_view(event_ids@) =~= Seq::new(b[32] as nat, |i: int| field(b, 33 + 16 * i, 16)));
    Ok(event_ids)
}

/// Reads a request frame's body by the frame's kind.
pub fn parse_request(kind: FrameType, body: &[u8]) -> (r: Result<ApiRequest, ApiError>)
    ensures
        match spec_parse_request(kind, body@) {
            Ok(v) => r matches Ok(x) && x@ == v,
            Err(e) => r matches Err(x) && x == e,
        },
{
    let mut reader = Reader::new(body);
    match kind {
        FrameType::ClientHello => {
            let account_id = reader.array32()?;
            let root_public_key = reader.array32()?;
            let device_id = reader.array16()?;
            let device_public_key = reader.array32()?;
            let issued_at = reader.u64()?;
            let signature = reader.array64()?;
            reader.finish()?;
            Ok(
                ApiRequest::RegisterDevice {
                    account_id,
                    root_public_key,
                    certificate: DeviceCertificate { device_id, device_public_key, issued_at, signature },
                },
            )
        },
        FrameType::AuthChallenge => {
            let device_id = reader.array16()?;
            let trailing_bytes = reader.finish().is_err();
            Ok(ApiRequest::BeginChallenge { device_id, trailing_bytes })
        },
        FrameType::AuthResponse => {
            if reader.remaining_len() == 80 {
                let challenge_id = reader.array16()?;
                let signature = reader.array64()?;
                Ok(ApiRequest::CompleteChallenge { challenge_id, signature })
            } else if reader.remaining_len() == 112 {
                let device_id = reader.array16()?;
                let refresh_token = reader.array32()?;
                let signature = reader.array64()?;
                Ok(ApiRequest::RotateRefresh { device_id, refresh_token, signature })
            } else {
                Err(ApiError::InvalidInput)
            }
        },
        FrameType::UploadEnvelope => {
            let access_token = reader.array32()?;
            let operation = read_upload_operation(&mut reader);
            Ok(ApiRequest::Upload { access_token, operation })
        },
        FrameType::SyncRequest => {
            let access_token = reader.array32()?;
            let operation = read_sync_operation(&mut reader);
            Ok(ApiRequest::Sync { access_token, operation })
        },
        FrameType::RelayDirectoryRequest => {
            let operation = reader.u8()?;
            if operation != 1 {
                return Err(ApiError::InvalidInput);
            }
            let recovery_identifier = reader.array32()?;
            reader.finish()?;
            Ok(ApiRequest::FetchRecovery { recovery_identifier })
        },
        FrameType::DeliveryReceiptBatch => {
            let access_token = reader.array32()?;
            let event_ids = read_receipt_ids(&mut reader);
            Ok(ApiRequest::Receipts { access_token, receipt_type: 1, event_ids })
        },
        FrameType::ReadReceiptBatch => {
            let access_token = reader.array32()?;
            let event_ids = read_receipt_ids(&mut reader);
            Ok(ApiRequest::Receipts { access_token, receipt_type: 2, event_ids })
        },
        FrameType::Ping => {
            let value = vstd::slice::slice_to_vec(body);
            Ok(ApiRequest::Ping { body: value })
        },
        _ => Err(ApiError::InvalidInput),
    }
}

// ---------------------------------------------------------------------------
// Answers
// ---------------------------------------------------------------------------
impl UploadOperation {
    /// The operation byte that the upload carried.
    pub fn code(&self) -> (r: u8)
        ensures
            r == upload_code(self@),
    {
        match self {
            UploadOperation::Event { .. } => 1,
            UploadOperation::KeyPackage { .. } => 2,
            UploadOperation::CreateGroup { .. } => 3,
            UploadOperation::Membership { .. } => 4,
            UploadOperation::Welcome { .. } => 5,
            UploadOperation::RecoveryPackage { .. } => 6,
        }
    }
}

/// The operation byte of an upload.
pub open spec fn upload_code(op: UploadView) -> u8 {
    match op {
        UploadView::Event { .. } => 1,
        UploadView::KeyPackage { .. } => 2,
        UploadView::CreateGroup { .. } => 3,
        UploadView::Membership { .. } => 4,
        UploadView::Welcome { .. } => 5,
        UploadView::RecoveryPackage { .. } => 6,
    }
}

/// The frame kind that answers a request of `kind`, when it succeeds.
pub open spec fn spec_response_kind(kind: FrameType) -> FrameType {
    match kind {
        FrameType::ClientHello => FrameType::ServerHello,
        FrameType::AuthChallenge => FrameType::AuthChallenge,
        FrameType::AuthResponse => FrameType::AuthAccepted,
        FrameType::UploadEnvelope => FrameType::UploadAccepted,
        FrameType::SyncRequest => FrameType::SyncBatch,
        FrameType::RelayDirectoryRequest => FrameType::RelayDirectoryResponse,
        FrameType::Ping => FrameType::Pong,
        other => other,
    }
}

pub fn response_kind(kind: FrameType) -> (r: FrameType)
    ensures
        r == spec_response_kind(kind),
{
    match kind {
        FrameType::ClientHello => FrameType::ServerHello,
        FrameType::AuthChallenge => FrameType::AuthChallenge,
        FrameType::AuthResponse => FrameType::AuthAccepted,
        FrameType::UploadEnvelope => FrameType::UploadAccepted,
        FrameType::SyncRequest => FrameType::SyncBatch,
        FrameType::RelayDirectoryRequest => FrameType::RelayDirectoryResponse,
        FrameType::Ping => FrameType::Pong,
        other => other,
    }
}

/// The answer to `request`: the same client message ID, protocol version, no TTL.
pub fn response_frame(request: &TransportFrame, kind: FrameType, body: Vec<u8>) -> (r: TransportFrame)
    ensures
        r.version == PROTOCOL_VERSION,
        r.kind == kind,
        r.client_message_id == request.client_message_id,
        r.ttl_seconds == 0,
        r.body@ == body@,
{
    TransportFrame {
        version: PROTOCOL_VERSION,
        kind,
        client_message_id: request.client_message_id,
        ttl_seconds: 0,
        body,
    }
}

/// An error frame: the error code as its one body byte.
pub fn error_frame(id: Id, code: ErrorCode) -> (r: TransportFrame)
    ensures
        r.version == PROTOCOL_VERSION,
        r.kind == FrameType::Error,
        r.client_message_id == id,
        r.ttl_seconds == 0,
        r.body@ == seq![code.spec_code()],
{
    let mut body: Vec<u8> = Vec::new();
    body.push(code.code());
    TransportFrame { version: PROTOCOL_VERSION, kind: FrameType::Error, client_message_id: id, ttl_seconds: 0, body }
}

/// The HTTP status and error code with which an error is answered.
pub open spec fn spec_map_error(error: ApiError) -> (u16, ErrorCode) {
    match error {
        ApiError::Expired => (401, ErrorCode::Replay),
        ApiError::Replay => (409, ErrorCode::Replay),
        ApiError::TokenReuse => (409, ErrorCode::Replay),
        ApiError::Conflict => (409, ErrorCode::Duplicate),
        ApiError::Unauthorized => (401, ErrorCode::Malformed),
        ApiError::InvalidCredentials => (401, ErrorCode::Malformed),
        ApiError::CursorRegression => (409, ErrorCode::CursorRegression),
        ApiError::InvalidInput => (400, ErrorCode::Malformed),
        ApiError::Database => (500, ErrorCode::Malformed),
    }
}

pub fn map_error(error: ApiError) -> (r: (u16, ErrorCode))
    ensures
        r == spec_map_error(error),
{
    match error {
        ApiError::Expired => (401, ErrorCode::Replay),
        ApiError::Replay | ApiError::TokenReuse => (409, ErrorCode::Replay),
        ApiError::Conflict => (409, ErrorCode::Duplicate),
        ApiError::Unauthorized | ApiError::InvalidCredentials => (401, ErrorCode::Malformed),
        ApiError::CursorRegression => (409, ErrorCode::CursorRegression),
        ApiError::InvalidInput => (400, ErrorCode::Malformed),
        ApiError::Database => (500, ErrorCode::Malformed),
    }
}

/// How the service answers each request kind: a hello with ServerHello, a challenge
/// request with AuthChallenge, an auth response with AuthAccepted, an upload with
/// UploadAccepted, a sync request with SyncBatch, a directory request with
/// RelayDirectoryResponse and a ping with Pong; any other kind is answered in kind.
pub proof fn lemma_response_kinds(kind: FrameType)
    ensures
        spec_response_kind(FrameType::ClientHello) == FrameType::ServerHello,
        spec_response_kind(FrameType::AuthChallenge) == FrameType::AuthChallenge,
        spec_response_kind(FrameType::AuthResponse) == FrameType::AuthAccepted,
        spec_response_kind(FrameType::UploadEnvelope) == FrameType::UploadAccepted,
        spec_response_kind(FrameType::SyncRequest) == FrameType::SyncBatch,
        spec_response_kind(FrameType::RelayDirectoryRequest) == FrameType::RelayDirectoryResponse,
        spec_response_kind(FrameType::Ping) == FrameType::Pong,
        !(kind == FrameType::ClientHello || kind == FrameType::AuthResponse || kind == FrameType::UploadEnvelope
            || kind == FrameType::SyncRequest || kind == FrameType::RelayDirectoryRequest || kind == FrameType::Ping)
            ==> spec_response_kind(kind) == kind,
{
}

/// How each service error is answered: an expired challenge with 401 and Replay, a
/// replayed challenge or a reused token with 409 and Replay, a conflict with 409 and
/// Duplicate, missing or wrong credentials with 401 and Malformed, a cursor regression
/// with 409 and CursorRegression, invalid input with 400 and Malformed, and a database
/// failure with 500 and Malformed.
pub proof fn lemma_error_answers()
    ensures
        spec_map_error(ApiError::Expired) == (401u16, ErrorCode::Replay),
        spec_map_error(ApiError::Replay) == (409u16, ErrorCode::Replay),
        spec_map_error(ApiError::TokenReuse) == (409u16, ErrorCode::Replay),
        spec_map_error(ApiError::Conflict) == (409u16, ErrorCode::Duplicate),
        spec_map_error(ApiError::Unauthorized) == (401u16, ErrorCode::Malformed),
        spec_map_error(ApiError::InvalidCredentials) == (401u16, ErrorCode::Malformed),
        spec_map_error(ApiError::CursorRegression) == (409u16, ErrorCode::CursorRegression),
        spec_map_error(ApiError::InvalidInput) == (400u16, ErrorCode::Malformed),
        spec_map_error(ApiError::Database) == (500u16, ErrorCode::Malformed),
        BAD_REQUEST_STATUS == 400,
        TOO_MANY_REQUESTS_STATUS == 429,
{
}

/// The HTTP status of a frame that does not decode, and of a long poll that is not a sync.
pub const BAD_REQUEST_STATUS: u16 = 400;

/// The HTTP status of a rate-limited frame.
pub const TOO_MANY_REQUESTS_STATUS: u16 = 429;

/// The ASCII bytes of "frame/v1/", the prefix of a frame's rate-limit scope.
pub open spec fn frame_scope_prefix() -> Seq<u8> {
    seq![102u8, 114, 97, 109, 101, 47, 118, 49, 47]
}

/// The rate-limit scope of a frame: the prefix and the client message ID.
pub fn rate_limit_scope(client_message_id: &Id) -> (r: Vec<u8>)
    ensures
        r@ == frame_scope_prefix() + client_message_id.0@,
{
    let prefix: [u8; 9] = [102u8, 114, 97, 109, 101, 47, 118, 49, 47];
    let mut out: Vec<u8> = Vec::new();
    push_bytes(&mut out, &prefix);
    push_bytes(&mut out, &client_message_id.0);
    assert(prefix@ =~= frame_scope_prefix());
    out
}

/// A long poll carries only sync requests.
pub fn long_poll_accepts(kind: FrameType) -> (r: bool)
    ensures
        r == (kind == FrameType::SyncRequest),
{
    kind == FrameType::SyncRequest
}

/// The refusal of a binary request that decoded, in the order the service checks: a
/// frame over its rate limit is refused as rate limited; a long poll that is not a sync
/// request is refused as malformed; any other request goes on to be served.
pub fn binary_rejection(kind: FrameType, long_poll: bool, rate_limited: bool) -> (r: Option<(u16, ErrorCode)>)
    ensures
        r == (if rate_limited {
            Some((TOO_MANY_REQUESTS_STATUS, ErrorCode::RateLimited))
        } else if long_poll && kind != FrameType::SyncRequest {
            Some((BAD_REQUEST_STATUS, ErrorCode::Malformed))
        } else {
            None
        }),
{
    if rate_limited {
        Some((TOO_MANY_REQUESTS_STATUS, ErrorCode::RateLimited))
    } else if long_poll && !long_poll_accepts(kind) {
        Some((BAD_REQUEST_STATUS, ErrorCode::Malformed))
    } else {
        None
    }
}

/// Whether an answer is an empty page of events, after which a long poll waits for new
/// events and asks again.
pub open spec fn spec_empty_sync_page(kind: FrameType, body: Seq<u8>) -> bool {
    kind == FrameType::SyncBatch && body.len() >= 2 && (body[0] == 0 || body[0] == 1) && body[1] == 0
}

pub fn is_empty_sync_page(response: &TransportFrame) -> (r: bool)
    ensures
        r == spec_empty_sync_page(response.kind, response.body@),
{
    response.kind == FrameType::SyncBatch && response.body.len() >= 2 && (response.body[0] == 0
        || response.body[0] == 1) && response.body[1] == 0
}

/// The body that answers an accepted event: operation 1, the cursor and the duplicate
/// flag.
pub fn upload_event_body(accepted: UploadAccepted) -> (r: Vec<u8>)
    ensures
        r@ == seq![1u8] + be64(accepted.cursor as u64) + seq![if accepted.duplicate { 1u8 } else { 0u8 }],
{
    let mut out: Vec<u8> = Vec::new();
    out.push(1u8);
    push_be64(&mut out, accepted.cursor as u64);
    out.push(if accepted.duplicate { 1u8 } else { 0u8 });
    assert(out@ =~= seq![1u8] + be64(accepted.cursor as u64) + seq![
        if accepted.duplicate { 1u8 } else { 0u8 },
    ]);
    out
}

/// The body that answers a membership operation: operation 4 and whether it had been
/// applied before.
pub fn membership_body(replayed: bool) -> (r: Vec<u8>)
    ensures
        r@ == seq![4u8, if replayed { 1u8 } else { 0u8 }],
{
    let mut out: Vec<u8> = Vec::new();
    out.push(4u8);
    out.push(if replayed { 1u8 } else { 0u8 });
    assert(out@ =~= seq![4u8, if replayed { 1u8 } else { 0u8 }]);
    out
}

/// The body that answers the other uploads: the operation byte alone.
pub fn upload_ack_body(operation: u8) -> (r: Vec<u8>)
    ensures
        r@ == seq![operation],
{
    let mut out: Vec<u8> = Vec::new();
    out.push(operation);
    assert(out@ =~= seq![operation]);
    out
}

/// One event of a sync page: cursor, event ID, kind, ciphertext length and ciphertext.
pub open spec fn sync_event_bytes(e: SyncEvent) -> Seq<u8> {
    be64(e.cursor as u64) + e.event_id@ + be16(e.event_kind as u16) + be32(e.ciphertext@.len() as u32)
        + e.ciphertext@
}

/// The events of a sync page one after the other.
pub open spec fn sync_events_bytes(events: Seq<SyncEvent>) -> Seq<u8>
    decreases events.len(),
{
    if events.len() == 0 {
        Seq::empty()
    } else {
        sync_events_bytes(events.drop_last()) + sync_event_bytes(events.last())
    }
}

/// The body of a sync page: the operation, the event count and the events.
pub fn sync_events_body(operation: u8, events: &Vec<SyncEvent>) -> (r: Vec<u8>)
    ensures
        r@ == seq![operation, events@.len() as u8] + sync_events_bytes(events@),
{
    let mut out: Vec<u8> = Vec::new();
    out.push(operation);
    out.push(events.len() as u8);
    let ghost head = out@;
    let mut i: usize = 0;
    while i < events.len()
        invariant
            head == seq![operation, events@.len() as u8],
            0 <= i <= events@.len(),
            out@ == head + sync_events_bytes(events@.take(i as int)),
        decreases events@.len() - i,
    {
        let e = &events[i];
        push_be64(&mut out, e.cursor as u64);
        push_bytes(&mut out, &e.event_id);
        push_be16(&mut out, e.event_kind as u16);
        push_be32(&mut out, e.ciphertext.len() as u32);
        push_bytes(&mut out, e.ciphertext.as_slice());
        assert(events@.take(i + 1).drop_last() =~= events@.take(i as int));
        assert(out@ =~= head + sync_events_bytes(events@.take(i + 1)));
        i = i + 1;
    }
    assert(events@.take(events@.len() as int) =~= events@);
    out
}

/// The body that answers a key-package request: operation 2, then 1 with the package's
/// ID and bytes, or 0 when the device has none left.
pub fn key_package_body(found: &Option<([u8; 16], Vec<u8>)>) -> (r: Vec<u8>)
    ensures
        match *found {
            Some((id, package)) => r@ == seq![2u8, 1u8] + id@ + package@,
            None => r@ == seq![2u8, 0u8],
        },
{
    let mut out: Vec<u8> = Vec::new();
    out.push(2u8);
    match found {
        Some((id, package)) => {
            out.push(1u8);
            push_bytes(&mut out, id);
            push_bytes(&mut out, package.as_slice());
            assert(out@ =~= seq![2u8, 1u8] + id@ + package@);
        },
        None => {
            out.push(0u8);
            assert(out@ =~= seq![2u8, 0u8]);
        },
    }
    out
}

/// One pending Welcome: its ID, the group, the length and the Welcome.
pub open spec fn welcome_bytes(w: ([u8; 16], [u8; 16], Vec<u8>)) -> Seq<u8> {
    w.0@ + w.1@ + be32(w.2@.len() as u32) + w.2@
}

/// Pending Welcomes one after the other.
pub open spec fn welcomes_bytes(ws: Seq<([u8; 16], [u8; 16], Vec<u8>)>) -> Seq<u8>
    decreases ws.len(),
{
    if ws.len() == 0 {
        Seq::empty()
    } else {
        welcomes_bytes(ws.drop_last()) + welcome_bytes(ws.last())
    }
}

/// The body that answers a Welcome request: operation 3, the count and the Welcomes.
pub fn welcomes_body(welcomes: &Vec<([u8; 16], [u8; 16], Vec<u8>)>) -> (r: Vec<u8>)
    ensures
        r@ == seq![3u8, welcomes@.len() as u8] + welcomes_bytes(welcomes@),
{
    let mut out: Vec<u8> = Vec::new();
    out.push(3u8);
    out.push(welcomes.len() as u8);
    let ghost head = out@;
    let mut i: usize = 0;
    while i < welcomes.len()
        invariant
            head == seq![3u8, welcomes@.len() as u8],
            0 <= i <= welcomes@.len(),
            out@ == head + welcomes_bytes(welcomes@.take(i as int)),
        decreases welcomes@.len() - i,
    {
        let w = &welcomes[i];
        push_bytes(&mut out, &w.0);
        push_bytes(&mut out, &w.1);
        push_be32(&mut out, w.2.len() as u32);
        push_bytes(&mut out, w.2.as_slice());
        assert(welcomes@.take(i + 1).drop_last() =~= welcomes@.take(i as int));
        assert(out@ =~= head + welcomes_bytes(welcomes@.take(i + 1)));
        i = i + 1;
    }
    assert(welcomes@.take(welcomes@.len() as int) =~= welcomes@);
    out
}

/// The body that answers a recovery request: operation 1, then 1 with the encrypted
/// package, or 0 when none is stored.
pub fn recovery_body(blob: &Option<Vec<u8>>) -> (r: Vec<u8>)
    ensures
        match *blob {
            Some(b) => r@ == seq![1u8, 1u8] + b@,
            None => r@ == seq![1u8, 0u8],
        },
{
    let mut out: Vec<u8> = Vec::new();
    out.push(1u8);
    match blob {
        Some(b) => {
            out.push(1u8);
            push_bytes(&mut out, b.as_slice());
            assert(out@ =~= seq![1u8, 1u8] + b@);
        },
        None => {
            out.push(0u8);
            assert(out@ =~= seq![1u8, 0u8]);
        },
    }
    out
}

/// The body that answers a challenge request: the challenge ID and the challenge.
pub fn challenge_body(challenge: &Challenge) -> (r: Vec<u8>)
    ensures
        r@ == challenge.challenge_id@ + challenge.challenge@,
{
    let mut out: Vec<u8> = Vec::new();
    push_bytes(&mut out, &challenge.challenge_id);
    push_bytes(&mut out, &challenge.challenge);
    out
}

/// The body that answers an accepted authentication: the access and refresh tokens.
pub fn tokens_body(tokens: &SessionTokens) -> (r: Vec<u8>)
    ensures
        r@ == tokens.access_token@ + tokens.refresh_token@,
{
    let mut out: Vec<u8> = Vec::new();
    push_bytes(&mut out, &tokens.access_token);
    push_bytes(&mut out, &tokens.refresh_token);
    out
}

} // verus!
