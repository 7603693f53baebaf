//! Compact v1 protocol. The wire format is a restricted, canonical RFC 8949 CBOR profile.
//! It accepts only definite-length arrays, unsigned integers and byte strings; maps,
//! tags, floats and indefinite forms are rejected before an application can parse them.
use vstd::prelude::*;

verus! {

pub const PROTOCOL_VERSION: u16 = 1;

pub const MAX_FRAME_SIZE: usize = 65536;

pub const MAX_ENCRYPTED_TEXT_EVENT_SIZE: usize = 4096;

pub const MAX_BATCH_SIZE: usize = 50;

pub const DEFAULT_TTL_SECONDS: u32 = 604800;

pub const SIZE_WARNING_BYTES: usize = 1024;

/// The protocol version that this library speaks.
pub fn protocol_version() -> (v: u16)
    ensures
        v == PROTOCOL_VERSION,
{
    PROTOCOL_VERSION
}

/// A compact 16-byte identifier.
#[derive(Clone, Copy, Debug, Eq, PartialEq, Hash)]
pub struct Id(pub [u8; 16]);

pub type AccountId = Id;

pub type DeviceId = Id;

pub type ConversationId = Id;

pub type EventId = Id;

pub type ClientMessageId = Id;

#[derive(Clone, Copy, Debug, PartialEq, Eq, Structural)]
pub enum FrameType {
    ClientHello,
    ServerHello,
    AuthChallenge,
    AuthResponse,
    AuthAccepted,
    UploadEnvelope,
    UploadAccepted,
    SyncRequest,
    SyncBatch,
    DeliveryReceiptBatch,
    ReadReceiptBatch,
    RelayDirectoryRequest,
    RelayDirectoryResponse,
    Ping,
    Pong,
    RateLimit,
    Error,
}

#[derive(Clone, Copy, Debug, PartialEq, Eq, Structural)]
pub enum ApplicationType {
    TextMessage,
    MessageRequest,
    MessageRequestAccepted,
    DeliveryReceipt,
    ReadReceipt,
    GroupMetadataUpdate,
    GroupMemberEvent,
    GroupInvite,
    GroupInviteAccepted,
    DeviceLinked,
    DeviceRemoved,
}

#[derive(Clone, Copy, Debug, PartialEq, Eq, Structural)]
pub enum ErrorCode {
    Malformed,
    UnsupportedVersion,
    TooLarge,
    Replay,
    Duplicate,
    RateLimited,
    CursorRegression,
}

#[derive(Clone, Copy, Debug, PartialEq, Eq, Structural)]
pub enum Error {
    Malformed,
    Truncated,
    TooLarge,
    NonCanonical,
    UnsupportedVersion,
    UnknownFrameType,
    UnknownApplicationType,
    TrailingBytes,
    FieldOutOfRange,
}

impl FrameType {
    /// The wire number of a frame type.
    pub open spec fn spec_code(self) -> u8 {
        match self {
            FrameType::ClientHello => 1,
            FrameType::ServerHello => 2,
            FrameType::AuthChallenge => 3,
            FrameType::AuthResponse => 4,
            FrameType::AuthAccepted => 5,
            FrameType::UploadEnvelope => 6,
            FrameType::UploadAccepted => 7,
            FrameType::SyncRequest => 8,
            FrameType::SyncBatch => 9,
            FrameType::DeliveryReceiptBatch => 10,
            FrameType::ReadReceiptBatch => 11,
            FrameType::RelayDirectoryRequest => 12,
            FrameType::RelayDirectoryResponse => 13,
            FrameType::Ping => 14,
            FrameType::Pong => 15,
            FrameType::RateLimit => 16,
            FrameType::Error => 17,
        }
    }

    pub fn code(self) -> (c: u8)
        ensures
            c == self.spec_code(),
    {
        match self {
            FrameType::ClientHello => 1,
            FrameType::ServerHello => 2,
            FrameType::AuthChallenge => 3,
            FrameType::AuthResponse => 4,
            FrameType::AuthAccepted => 5,
            FrameType::UploadEnvelope => 6,
            FrameType::UploadAccepted => 7,
            FrameType::SyncRequest => 8,
            FrameType::SyncBatch => 9,
            FrameType::DeliveryReceiptBatch => 10,
            FrameType::ReadReceiptBatch => 11,
            FrameType::RelayDirectoryRequest => 12,
            FrameType::RelayDirectoryResponse => 13,
            FrameType::Ping => 14,
            FrameType::Pong => 15,
            FrameType::RateLimit => 16,
            FrameType::Error => 17,
        }
    }

    /// The frame type with wire number `n`, if there is one.
    pub open spec fn spec_parse(n: int) -> Result<FrameType, Error> {
        if n == 1 {
            Ok(FrameType::ClientHello)
        } else if n == 2 {
            Ok(FrameType::ServerHello)
        } else if n == 3 {
            Ok(FrameType::AuthChallenge)
        } else if n == 4 {
            Ok(FrameType::AuthResponse)
        } else if n == 5 {
            Ok(FrameType::AuthAccepted)
        } else if n == 6 {
            Ok(FrameType::UploadEnvelope)
        } else if n == 7 {
            Ok(FrameType::UploadAccepted)
        } else if n == 8 {
            Ok(FrameType::SyncRequest)
        } else if n == 9 {
            Ok(FrameType::SyncBatch)
        } else if n == 10 {
            Ok(FrameType::DeliveryReceiptBatch)
        } else if n == 11 {
            Ok(FrameType::ReadReceiptBatch)
        } else if n == 12 {
            Ok(FrameType::RelayDirectoryRequest)
        } else if n == 13 {
            Ok(FrameType::RelayDirectoryResponse)
        } else if n == 14 {
            Ok(FrameType::Ping)
        } else if n == 15 {
            Ok(FrameType::Pong)
        } else if n == 16 {
            Ok(FrameType::RateLimit)
        } else if n == 17 {
            Ok(FrameType::Error)
        } else {
            Err(Error::UnknownFrameType)
        }
    }

    fn parse(n: u64) -> (r: Result<FrameType, Error>)
        ensures
            r == FrameType::spec_parse(n as int),
    {
        match n {
            1 => Ok(FrameType::ClientHello),
            2 => Ok(FrameType::ServerHello),
            3 => Ok(FrameType::AuthChallenge),
            4 => Ok(FrameType::AuthResponse),
            5 => Ok(FrameType::AuthAccepted),
            6 => Ok(FrameType::UploadEnvelope),
            7 => Ok(FrameType::UploadAccepted),
            8 => Ok(FrameType::SyncRequest),
            9 => Ok(FrameType::SyncBatch),
            10 => Ok(FrameType::DeliveryReceiptBatch),
            11 => Ok(FrameType::ReadReceiptBatch),
            12 => Ok(FrameType::RelayDirectoryRequest),
            13 => Ok(FrameType::RelayDirectoryResponse),
            14 => Ok(FrameType::Ping),
            15 => Ok(FrameType::Pong),
            16 => Ok(FrameType::RateLimit),
            17 => Ok(FrameType::Error),
            _ => Err(Error::UnknownFrameType),
        }
    }
}

impl ApplicationType {
    pub open spec fn spec_code(self) -> u8 {
        match self {
            ApplicationType::TextMessage => 1,
            ApplicationType::MessageRequest => 2,
            ApplicationType::MessageRequestAccepted => 3,
            ApplicationType::DeliveryReceipt => 4,
            ApplicationType::ReadReceipt => 5,
            ApplicationType::GroupMetadataUpdate => 6,
            ApplicationType::GroupMemberEvent => 7,
            ApplicationType::GroupInvite => 8,
            ApplicationType::GroupInviteAccepted => 9,
            ApplicationType::DeviceLinked => 10,
            ApplicationType::DeviceRemoved => 11,
        }
    }

    pub fn code(self) -> (c: u8)
        ensures
            c == self.spec_code(),
    {
        match self {
            ApplicationType::TextMessage => 1,
            ApplicationType::MessageRequest => 2,
            ApplicationType::MessageRequestAccepted => 3,
            ApplicationType::DeliveryReceipt => 4,
            ApplicationType::ReadReceipt => 5,
            ApplicationType::GroupMetadataUpdate => 6,
            ApplicationType::GroupMemberEvent => 7,
            ApplicationType::GroupInvite => 8,
            ApplicationType::GroupInviteAccepted => 9,
            ApplicationType::DeviceLinked => 10,
            ApplicationType::DeviceRemoved => 11,
        }
    }

    pub open spec fn spec_parse(n: int) -> Result<ApplicationType, Error> {
        if n == 1 {
            Ok(ApplicationType::TextMessage)
        } else if n == 2 {
            Ok(ApplicationType::MessageRequest)
        } else if n == 3 {
            Ok(ApplicationType::MessageRequestAccepted)
        } else if n == 4 {
            Ok(ApplicationType::DeliveryReceipt)
        } else if n == 5 {
            Ok(ApplicationType::ReadReceipt)
        } else if n == 6 {
            Ok(ApplicationType::GroupMetadataUpdate)
        } else if n == 7 {
            Ok(ApplicationType::GroupMemberEvent)
        } else if n == 8 {
            Ok(ApplicationType::GroupInvite)
        } else if n == 9 {
            Ok(ApplicationType::GroupInviteAccepted)
        } else if n == 10 {
            Ok(ApplicationType::DeviceLinked)
        } else if n == 11 {
            Ok(ApplicationType::DeviceRemoved)
        } else {
            Err(Error::UnknownApplicationType)
        }
    }

    fn parse(n: u64) -> (r: Result<ApplicationType, Error>)
        ensures
            r == ApplicationType::spec_parse(n as int),
    {
        match n {
            1 => Ok(ApplicationType::TextMessage),
            2 => Ok(ApplicationType::MessageRequest),
            3 => Ok(ApplicationType::MessageRequestAccepted),
            4 => Ok(ApplicationType::DeliveryReceipt),
            5 => Ok(ApplicationType::ReadReceipt),
            6 => Ok(ApplicationType::GroupMetadataUpdate),
            7 => Ok(ApplicationType::GroupMemberEvent),
            8 => Ok(ApplicationType::GroupInvite),
            9 => Ok(ApplicationType::GroupInviteAccepted),
            10 => Ok(ApplicationType::DeviceLinked),
            11 => Ok(ApplicationType::DeviceRemoved),
            _ => Err(Error::UnknownApplicationType),
        }
    }
}

impl ErrorCode {
    pub open spec fn spec_code(self) -> u8 {
        match self {
            ErrorCode::Malformed => 1,
            ErrorCode::UnsupportedVersion => 2,
            ErrorCode::TooLarge => 3,
            ErrorCode::Replay => 4,
            ErrorCode::Duplicate => 5,
            ErrorCode::RateLimited => 6,
            ErrorCode::CursorRegression => 7,
        }
    }

    /// The wire number of an error code.
    pub fn code(self) -> (c: u8)
        ensures
            c == self.spec_code(),
    {
        match self {
            ErrorCode::Malformed => 1,
            ErrorCode::UnsupportedVersion => 2,
            ErrorCode::TooLarge => 3,
            ErrorCode::Replay => 4,
            ErrorCode::Duplicate => 5,
            ErrorCode::RateLimited => 6,
            ErrorCode::CursorRegression => 7,
        }
    }
}

impl Error {
    /// The variant's name, as the error is shown to a person.
    pub fn name(&self) -> (r: &'static str)
        ensures
            r@ == (match *self {
                Error::Malformed => "Malformed"@,
                Error::Truncated => "Truncated"@,
                Error::TooLarge => "TooLarge"@,
                Error::NonCanonical => "NonCanonical"@,
                Error::UnsupportedVersion => "UnsupportedVersion"@,
                Error::UnknownFrameType => "UnknownFrameType"@,
                Error::UnknownApplicationType => "UnknownApplicationType"@,
                Error::TrailingBytes => "TrailingBytes"@,
                Error::FieldOutOfRange => "FieldOutOfRange"@,
            }),
    {
        match self {
            Error::Malformed => "Malformed",
            Error::Truncated => "Truncated",
            Error::TooLarge => "TooLarge",
            Error::NonCanonical => "NonCanonical",
            Error::UnsupportedVersion => "UnsupportedVersion",
            Error::UnknownFrameType => "UnknownFrameType",
            Error::UnknownApplicationType => "UnknownApplicationType",
            Error::TrailingBytes => "TrailingBytes",
            Error::FieldOutOfRange => "FieldOutOfRange",
        }
    }
}

/// Every frame type's wire number reads back as that frame type.
pub proof fn lemma_frame_type_code_round_trip(kind: FrameType)
    ensures
        FrameType::spec_parse(kind.spec_code() as int) == Ok::<FrameType, Error>(kind),
{
}

/// A number that reads as a frame type is that frame type's wire number.
pub proof fn lemma_frame_type_parse_canonical(n: int)
    ensures
        FrameType::spec_parse(n) matches Ok(kind) ==> kind.spec_code() == n,
{
}

/// Every application type's wire number reads back as that application type.
pub proof fn lemma_application_type_code_round_trip(kind: ApplicationType)
    ensures
        ApplicationType::spec_parse(kind.spec_code() as int) == Ok::<ApplicationType, Error>(kind),
{
}

/// A number that reads as an application type is that type's wire number.
pub proof fn lemma_application_type_parse_canonical(n: int)
    ensures
        ApplicationType::spec_parse(n) matches Ok(kind) ==> kind.spec_code() == n,
{
}

/// The protocol's frame-type table: ClientHello is 1, ServerHello 2, and so on to Error,
/// 17; those numbers read back as those types and every other number is unknown.
pub proof fn lemma_frame_type_wire_numbers()
    ensures
        FrameType::ClientHello.spec_code() == 1,
        FrameType::ServerHello.spec_code() == 2,
        FrameType::AuthChallenge.spec_code() == 3,
        FrameType::AuthResponse.spec_code() == 4,
        FrameType::AuthAccepted.spec_code() == 5,
        FrameType::UploadEnvelope.spec_code() == 6,
        FrameType::UploadAccepted.spec_code() == 7,
        FrameType::SyncRequest.spec_code() == 8,
        FrameType::SyncBatch.spec_code() == 9,
        FrameType::DeliveryReceiptBatch.spec_code() == 10,
        FrameType::ReadReceiptBatch.spec_code() == 11,
        FrameType::RelayDirectoryRequest.spec_code() == 12,
        FrameType::RelayDirectoryResponse.spec_code() == 13,
        FrameType::Ping.spec_code() == 14,
        FrameType::Pong.spec_code() == 15,
        FrameType::RateLimit.spec_code() == 16,
        FrameType::Error.spec_code() == 17,
        FrameType::spec_parse(1) == Ok::<FrameType, Error>(FrameType::ClientHello),
        FrameType::spec_parse(2) == Ok::<FrameType, Error>(FrameType::ServerHello),
        FrameType::spec_parse(3) == Ok::<FrameType, Error>(FrameType::AuthChallenge),
        FrameType::spec_parse(4) == Ok::<FrameType, Error>(FrameType::AuthResponse),
        FrameType::spec_parse(5) == Ok::<FrameType, Error>(FrameType::AuthAccepted),
        FrameType::spec_parse(6) == Ok::<FrameType, Error>(FrameType::UploadEnvelope),
        FrameType::spec_parse(7) == Ok::<FrameType, Error>(FrameType::UploadAccepted),
        FrameType::spec_parse(8) == Ok::<FrameType, Error>(FrameType::SyncRequest),
        FrameType::spec_parse(9) == Ok::<FrameType, Error>(FrameType::SyncBatch),
        FrameType::spec_parse(10) == Ok::<FrameType, Error>(FrameType::DeliveryReceiptBatch),
        FrameType::spec_parse(11) == Ok::<FrameType, Error>(FrameType::ReadReceiptBatch),
        FrameType::spec_parse(12) == Ok::<FrameType, Error>(FrameType::RelayDirectoryRequest),
        FrameType::spec_parse(13) == Ok::<FrameType, Error>(FrameType::RelayDirectoryResponse),
        FrameType::spec_parse(14) == Ok::<FrameType, Error>(FrameType::Ping),
        FrameType::spec_parse(15) == Ok::<FrameType, Error>(FrameType::Pong),
        FrameType::spec_parse(16) == Ok::<FrameType, Error>(FrameType::RateLimit),
        FrameType::spec_parse(17) == Ok::<FrameType, Error>(FrameType::Error),
        forall|n: int| !(1 <= n <= 17) ==> #[trigger] FrameType::spec_parse(n) == Err::<FrameType, Error>(Error::UnknownFrameType),
{
}

/// The protocol's application-type table: TextMessage is 1, and so on to DeviceRemoved,
/// 11; those numbers read back as those types and every other number is unknown.
pub proof fn lemma_application_type_wire_numbers()
    ensures
        ApplicationType::TextMessage.spec_code() == 1,
        ApplicationType::MessageRequest.spec_code() == 2,
        ApplicationType::MessageRequestAccepted.spec_code() == 3,
        ApplicationType::DeliveryReceipt.spec_code() == 4,
        ApplicationType::ReadReceipt.spec_code() == 5,
        ApplicationType::GroupMetadataUpdate.spec_code() == 6,
        ApplicationType::GroupMemberEvent.spec_code() == 7,
        ApplicationType::GroupInvite.spec_code() == 8,
        ApplicationType::GroupInviteAccepted.spec_code() == 9,
        ApplicationType::DeviceLinked.spec_code() == 10,
        ApplicationType::DeviceRemoved.spec_code() == 11,
        ApplicationType::spec_parse(1) == Ok::<ApplicationType, Error>(ApplicationType::TextMessage),
        ApplicationType::spec_parse(2) == Ok::<ApplicationType, Error>(ApplicationType::MessageRequest),
        ApplicationType::spec_parse(3) == Ok::<ApplicationType, Error>(ApplicationType::MessageRequestAccepted),
        ApplicationType::spec_parse(4) == Ok::<ApplicationType, Error>(ApplicationType::DeliveryReceipt),
        ApplicationType::spec_parse(5) == Ok::<ApplicationType, Error>(ApplicationType::ReadReceipt),
        ApplicationType::spec_parse(6) == Ok::<ApplicationType, Error>(ApplicationType::GroupMetadataUpdate),
        ApplicationType::spec_parse(7) == Ok::<ApplicationType, Error>(ApplicationType::GroupMemberEvent),
        ApplicationType::spec_parse(8) == Ok::<ApplicationType, Error>(ApplicationType::GroupInvite),
        ApplicationType::spec_parse(9) == Ok::<ApplicationType, Error>(ApplicationType::GroupInviteAccepted),
        ApplicationType::spec_parse(10) == Ok::<ApplicationType, Error>(ApplicationType::DeviceLinked),
        ApplicationType::spec_parse(11) == Ok::<ApplicationType, Error>(ApplicationType::DeviceRemoved),
        forall|n: int| !(1 <= n <= 11) ==> #[trigger] ApplicationType::spec_parse(n) == Err::<ApplicationType, Error>(Error::UnknownApplicationType),
{
}

/// The protocol's error-code table: Malformed is 1, and so on to CursorRegression, 7.
pub proof fn lemma_error_code_wire_numbers()
    ensures
        ErrorCode::Malformed.spec_code() == 1,
        ErrorCode::UnsupportedVersion.spec_code() == 2,
        ErrorCode::TooLarge.spec_code() == 3,
        ErrorCode::Replay.spec_code() == 4,
        ErrorCode::Duplicate.spec_code() == 5,
        ErrorCode::RateLimited.spec_code() == 6,
        ErrorCode::CursorRegression.spec_code() == 7,
{
}

/// The kind of a frame stands in its encoding as one byte, the fourth, holding the kind's
/// wire number; the schema number 1 and the version (below 24) come before it.
pub proof fn lemma_frame_kind_byte(f: FrameView)
    requires
        f.version < 24,
    ensures
        frame_bytes(f)[1] == 1,
        frame_bytes(f)[2] == f.version,
        frame_bytes(f)[3] == f.kind.spec_code(),
{
    let a = head_bytes(4, 6) + head_bytes(0, 1) + head_bytes(0, f.version as int) + head_bytes(
        0,
        f.kind.spec_code() as int,
    );
    assert(a.len() == 4);
    assert(frame_bytes(f).subrange(0, 4) =~= a);
    assert(frame_bytes(f)[3] == a[3]);
    assert(frame_bytes(f)[2] == a[2]);
    assert(frame_bytes(f)[1] == a[1]);
}

// ---------------------------------------------------------------------------
// Canonical CBOR heads
// ---------------------------------------------------------------------------
/// The shortest CBOR head for major type `major` and argument `n` (`n < 2^32`).
pub open spec fn head_bytes(major: int, n: int) -> Seq<u8> {
    if n < 24 {
        seq![(major * 32 + n) as u8]
    } else if n < 0x100 {
        seq![(major * 32 + 24) as u8, n as u8]
    } else if n < 0x10000 {
        seq![(major * 32 + 25) as u8, (n / 0x100) as u8, (n % 0x100) as u8]
    } else {
        seq![
            (major * 32 + 26) as u8,
            (n / 0x1000000) as u8,
            ((n / 0x10000) % 0x100) as u8,
            ((n / 0x100) % 0x100) as u8,
            (n % 0x100) as u8,
        ]
    }
}

/// A canonical head followed by the bytes of a byte string.
pub open spec fn byte_string(b: Seq<u8>) -> Seq<u8> {
    head_bytes(2, b.len() as int) + b
}

struct Encoder(Vec<u8>);

impl Encoder {
    fn new() -> (e: Encoder)
        ensures
            e.0@ == Seq::<u8>::empty(),
    {
        Encoder(Vec::new())
    }

    fn finish(self) -> (out: Vec<u8>)
        ensures
            out@ == self.0@,
    {
        self.0
    }

    fn array(&mut self, n: usize)
        requires
            n <= u32::MAX,
        ensures
            final(self).0@ == old(self).0@ + head_bytes(4, n as int),
    {
        self.major(4, n as u64)
    }

    fn uint(&mut self, n: u64)
        requires
            n <= u32::MAX,
        ensures
            final(self).0@ == old(self).0@ + head_bytes(0, n as int),
    {
        self.major(0, n)
    }

    fn bytes(&mut self, b: &[u8])
        requires
            b@.len() <= u32::MAX,
        ensures
            final(self).0@ == old(self).0@ + byte_string(b@),
    {
        self.major(2, b.len() as u64);
        let ghost mid = self.0@;
        let mut i: usize = 0;
        while i < b.len()
            invariant
                0 <= i <= b@.len(),
                self.0@ == mid + b@.subrange(0, i as int),
            decreases b@.len() - i,
        {
            self.0.push(b[i]);
            i = i + 1;
            assert(b@.subrange(0, i as int) == b@.subrange(0, i - 1) + seq![b@[i - 1]]);
        }
        assert(b@.subrange(0, b@.len() as int) == b@);
    }

    fn major(&mut self, m: u8, n: u64)
        requires
            m < 8,
            n <= u32::MAX,
        ensures
            final(self).0@ == old(self).0@ + head_bytes(m as int, n as int),
    {
        let base: u8 = m * 32;
        if n < 24 {
            self.0.push(base + n as u8);
        } else if n < 0x100 {
            self.0.push(base + 24);
            self.0.push(n as u8);
        } else if n < 0x10000 {
            self.0.push(base + 25);
            self.0.push((n / 0x100) as u8);
            self.0.push((n % 0x100) as u8);
        } else {
            self.0.push(base + 26);
            self.0.push((n / 0x1000000) as u8);
            self.0.push(((n / 0x10000) % 0x100) as u8);
            self.0.push(((n / 0x100) % 0x100) as u8);
            self.0.push((n % 0x100) as u8);
        }
        assert(self.0@ =~= old(self).0@ + head_bytes(m as int, n as int));
    }
}


// ---------------------------------------------------------------------------
// Decoding, stated over the input bytes
// ---------------------------------------------------------------------------
/// Reads one CBOR head at position `p`: its major type, its argument and the position
/// after it. Only the shortest encoding of an argument below 2^32 is accepted.
pub open spec fn spec_head(s: Seq<u8>, p: int) -> Result<(int, int, int), Error> {
    if p < 0 || p >= s.len() {
        Err(Error::Truncated)
    } else {
        let x = s[p] as int;
        let m = x / 32;
        let a = x % 32;
        if a <= 23 {
            Ok((m, a, p + 1))
        } else if a == 24 {
            if p + 2 > s.len() {
                Err(Error::Truncated)
            } else {
                let n = s[p + 1] as int;
                if n < 24 {
                    Err(Error::NonCanonical)
                } else {
                    Ok((m, n, p + 2))
                }
            }
        } else if a == 25 {
            if p + 3 > s.len() {
                Err(Error::Truncated)
            } else {
                let n = s[p + 1] as int * 0x100 + s[p + 2] as int;
                if n <= 0xff {
                    Err(Error::NonCanonical)
                } else {
                    Ok((m, n, p + 3))
                }
            }
        } else if a == 26 {
            if p + 5 > s.len() {
                Err(Error::Truncated)
            } else {
                let n = s[p + 1] as int * 0x1000000 + s[p + 2] as int * 0x10000 + s[p + 3] as int
                    * 0x100 + s[p + 4] as int;
                if n <= 0xffff {
                    Err(Error::NonCanonical)
                } else {
                    Ok((m, n, p + 5))
                }
            }
        } else {
            Err(Error::NonCanonical)
        }
    }
}

/// Reads an unsigned integer at `p`: its value and the position after it.
pub open spec fn spec_uint(s: Seq<u8>, p: int) -> Result<(int, int), Error> {
    match spec_head(s, p) {
        Err(e) => Err(e),
        Ok((m, n, q)) => if m == 0 {
            Ok((n, q))
        } else {
            Err(Error::Malformed)
        },
    }
}

/// Reads the head of an array of exactly `k` elements at `p`: the position after it.
pub open spec fn spec_array_len(s: Seq<u8>, p: int, k: int) -> Result<int, Error> {
    match spec_head(s, p) {
        Err(e) => Err(e),
        Ok((m, n, q)) => if m == 4 && n == k {
            Ok(q)
        } else {
            Err(Error::Malformed)
        },
    }
}

/// Reads a byte string at `p`: its contents and the position after it.
pub open spec fn spec_bytes(s: Seq<u8>, p: int) -> Result<(Seq<u8>, int), Error> {
    match spec_head(s, p) {
        Err(e) => Err(e),
        Ok((m, n, q)) => if m != 2 {
            Err(Error::Malformed)
        } else if q + n > s.len() {
            Err(Error::Truncated)
        } else {
            Ok((s.subrange(q, q + n), q + n))
        },
    }
}

/// Reads a 16-byte identifier at `p`: its bytes and the position after it.
pub open spec fn spec_id(s: Seq<u8>, p: int) -> Result<(Seq<u8>, int), Error> {
    match spec_bytes(s, p) {
        Err(e) => Err(e),
        Ok((b, q)) => if b.len() != 16 {
            Err(Error::FieldOutOfRange)
        } else {
            Ok((b, q))
        },
    }
}

struct Decoder<'a> {
    b: &'a [u8],
    p: usize,
}

impl<'a> Decoder<'a> {
    fn new(b: &'a [u8]) -> (d: Decoder<'a>)
        ensures
            d.b@ == b@,
            d.p == 0,
    {
        Decoder { b, p: 0 }
    }

    fn take(&mut self, count: usize) -> (r: Result<&'a [u8], Error>)
        requires
            old(self).p <= old(self).b@.len(),
        ensures
            final(self).b@ == old(self).b@,
            final(self).p <= final(self).b@.len(),
            old(self).p + count <= old(self).b@.len() ==> (r matches Ok(t) && t@ == old(
                self,
            ).b@.subrange(old(self).p as int, old(self).p + count) && final(self).p == old(self).p
                + count),
            old(self).p + count > old(self).b@.len() ==> (r matches Err(e) && e == Error::Truncated),
    {
        if count > self.b.len() - self.p {
            return Err(Error::Truncated);
        }
        let end = self.p + count;
        let r = vstd::slice::slice_subrange(self.b, self.p, end);
        self.p = end;
        Ok(r)
    }

    fn head(&mut self) -> (r: Result<(u8, u64), Error>)
        requires
            old(self).p <= old(self).b@.len(),
        ensures
            final(self).b@ == old(self).b@,
            final(self).p <= final(self).b@.len(),
            match spec_head(old(self).b@, old(self).p as int) {
                Ok((m, n, q)) => r == Ok::<(u8, u64), Error>((m as u8, n as u64)) && final(self).p
                    == q && m < 8 && n <= u32::MAX,
                Err(e) => r == Err::<(u8, u64), Error>(e),
            },
    {
        if self.p >= self.b.len() {
            return Err(Error::Truncated);
        }
        let x = self.b[self.p];
        self.p = self.p + 1;
        let m = x / 32;
        let a = x % 32;
        let n: u64 = if a <= 23 {
            a as u64
        } else if a == 24 {
            let t = self.take(1)?;
            t[0] as u64
        } else if a == 25 {
            let t = self.take(2)?;
            t[0] as u64 * 0x100 + t[1] as u64
        } else if a == 26 {
            let t = self.take(4)?;
            t[0] as u64 * 0x1000000 + t[1] as u64 * 0x10000 + t[2] as u64 * 0x100 + t[3] as u64
        } else {
            return Err(Error::NonCanonical);
        };
        if (a == 24 && n < 24) || (a == 25 && n <= 0xff) || (a == 26 && n <= 0xffff) {
            return Err(Error::NonCanonical);
        }
        Ok((m, n))
    }

    fn uint(&mut self) -> (r: Result<u64, Error>)
        requires
            old(self).p <= old(self).b@.len(),
        ensures
            final(self).b@ == old(self).b@,
            final(self).p <= final(self).b@.len(),
            match spec_uint(old(self).b@, old(self).p as int) {
                Ok((n, q)) => r == Ok::<u64, Error>(n as u64) && final(self).p == q && n
                    <= u32::MAX,
                Err(e) => r == Err::<u64, Error>(e),
            },
    {
        let (m, n) = self.head()?;
        if m == 0 {
            Ok(n)
        } else {
            Err(Error::Malformed)
        }
    }

    fn array_len(&mut self, n: usize) -> (r: Result<(), Error>)
        requires
            old(self).p <= old(self).b@.len(),
        ensures
            final(self).b@ == old(self).b@,
            final(self).p <= final(self).b@.len(),
            match spec_array_len(old(self).b@, old(self).p as int, n as int) {
                Ok(q) => r is Ok && final(self).p == q,
                Err(e) => r == Err::<(), Error>(e),
            },
    {
        let (m, x) = self.head()?;
        if m == 4 && x == n as u64 {
            Ok(())
        } else {
            Err(Error::Malformed)
        }
    }

    fn bytes(&mut self) -> (r: Result<&'a [u8], Error>)
        requires
            old(self).p <= old(self).b@.len(),
        ensures
            final(self).b@ == old(self).b@,
            final(self).p <= final(self).b@.len(),
            match spec_bytes(old(self).b@, old(self).p as int) {
                Ok((v, q)) => r matches Ok(t) && t@ == v && final(self).p == q,
                Err(e) => r matches Err(x) && x == e,
            },
    {
        let (m, n) = self.head()?;
        if m != 2 {
            return Err(Error::Malformed);
        }
        self.take(n as usize)
    }

    fn id(&mut self) -> (r: Result<Id, Error>)
        requires
            old(self).p <= old(self).b@.len(),
        ensures
            final(self).b@ == old(self).b@,
            final(self).p <= final(self).b@.len(),
            match spec_id(old(self).b@, old(self).p as int) {
                Ok((v, q)) => r matches Ok(i) && i.0@ == v && final(self).p == q,
                Err(e) => r == Err::<Id, Error>(e),
            },
    {
        let b = self.bytes()?;
        if b.len() != 16 {
            return Err(Error::FieldOutOfRange);
        }
        let mut x = [0u8; 16];
        let mut i: usize = 0;
        while i < 16
            invariant
                0 <= i <= 16,
                b@.len() == 16,
                forall|j: int| 0 <= j < i ==> x@[j] == b@[j],
            decreases 16 - i,
        {
            x[i] = b[i];
            i = i + 1;
        }
        assert(x@ =~= b@);
        Ok(Id(x))
    }

    fn finish(self) -> (r: Result<(), Error>)
        ensures
            r is Ok <==> self.p == self.b@.len(),
            r matches Err(e) ==> e == Error::TrailingBytes,
    {
        if self.p == self.b.len() {
            Ok(())
        } else {
            Err(Error::TrailingBytes)
        }
    }
}


// ---------------------------------------------------------------------------
// Frames and envelopes
// ---------------------------------------------------------------------------
/// The opaque `body` is ciphertext or control data. It never carries identities, contact
/// details, titles or message previews in the transport envelope.
#[derive(Clone, Debug, Eq, PartialEq)]
pub struct TransportFrame {
    pub version: u16,
    pub kind: FrameType,
    pub client_message_id: ClientMessageId,
    pub ttl_seconds: u32,
    pub body: Vec<u8>,
}

#[derive(Clone, Debug, Eq, PartialEq)]
pub struct ApplicationEnvelope {
    pub kind: ApplicationType,
    pub event_id: EventId,
    pub conversation_id: ConversationId,
    pub encrypted_content: Vec<u8>,
}

/// The mathematical value of a transport frame.
pub struct FrameView {
    pub version: u16,
    pub kind: FrameType,
    pub client_message_id: Seq<u8>,
    pub ttl_seconds: u32,
    pub body: Seq<u8>,
}

/// The mathematical value of an application envelope.
pub struct EnvelopeView {
    pub kind: ApplicationType,
    pub event_id: Seq<u8>,
    pub conversation_id: Seq<u8>,
    pub encrypted_content: Seq<u8>,
}

impl View for TransportFrame {
    type V = FrameView;

    open spec fn view(&self) -> FrameView {
        FrameView {
            version: self.version,
            kind: self.kind,
            client_message_id: self.client_message_id.0@,
            ttl_seconds: self.ttl_seconds,
            body: self.body@,
        }
    }
}

impl View for ApplicationEnvelope {
    type V = EnvelopeView;

    open spec fn view(&self) -> EnvelopeView {
        EnvelopeView {
            kind: self.kind,
            event_id: self.event_id.0@,
            conversation_id: self.conversation_id.0@,
            encrypted_content: self.encrypted_content@,
        }
    }
}

/// The canonical encoding of a frame: the array
/// `[schema=1, version, kind, client_message_id, ttl, body]`.
pub open spec fn frame_bytes(f: FrameView) -> Seq<u8> {
    head_bytes(4, 6) + head_bytes(0, 1) + head_bytes(0, f.version as int) + head_bytes(
        0,
        f.kind.spec_code() as int,
    ) + byte_string(f.client_message_id) + head_bytes(0, f.ttl_seconds as int) + byte_string(
        f.body,
    )
}

/// Encoding a frame gives its canonical bytes, unless they exceed the frame limit.
pub open spec fn spec_encode_frame(f: FrameView) -> Result<Seq<u8>, Error> {
    if frame_bytes(f).len() > MAX_FRAME_SIZE {
        Err(Error::TooLarge)
    } else {
        Ok(frame_bytes(f))
    }
}

/// What decoding `s` as a transport frame gives, error by error in the order the
/// fields are read.
pub open spec fn spec_decode_frame(s: Seq<u8>) -> Result<FrameView, Error> {
    if s.len() > MAX_FRAME_SIZE {
        Err(Error::TooLarge)
    } else {
        match spec_array_len(s, 0, 6) {
            Err(e) => Err(e),
            Ok(p1) => match spec_uint(s, p1) {
                Err(e) => Err(e),
                Ok((schema, p2)) => if schema != 1 {
                    Err(Error::Malformed)
                } else {
                    match spec_uint(s, p2) {
                        Err(e) => Err(e),
                        Ok((version, p3)) => if version != PROTOCOL_VERSION {
                            Err(Error::UnsupportedVersion)
                        } else {
                            match spec_uint(s, p3) {
                                Err(e) => Err(e),
                                Ok((k, p4)) => match FrameType::spec_parse(k) {
                                    Err(e) => Err(e),
                                    Ok(kind) => match spec_id(s, p4) {
                                        Err(e) => Err(e),
                                        Ok((id, p5)) => match spec_uint(s, p5) {
                                            Err(e) => Err(e),
                                            Ok((ttl, p6)) => if ttl > u32::MAX {
                                                Err(Error::FieldOutOfRange)
                                            } else {
                                                match spec_bytes(s, p6) {
                                                    Err(e) => Err(e),
                                                    Ok((body, p7)) => if p7 != s.len() {
                                                        Err(Error::TrailingBytes)
                                                    } else {
                                                        Ok(
                                                            FrameView {
                                                                version: PROTOCOL_VERSION,
                                                                kind,
                                                                client_message_id: id,
                                                                ttl_seconds: ttl as u32,
                                                                body,
                                                            },
                                                        )
                                                    },
                                                }
                                            },
                                        },
                                    },
                                },
                            }
                        },
                    }
                },
            },
        }
    }
}

/// The canonical encoding of an envelope: the array
/// `[schema=2, kind, event_id, conversation_id, encrypted_content]`.
pub open spec fn envelope_bytes(e: EnvelopeView) -> Seq<u8> {
    head_bytes(4, 5) + head_bytes(0, 2) + head_bytes(0, e.kind.spec_code() as int) + byte_string(
        e.event_id,
    ) + byte_string(e.conversation_id) + byte_string(e.encrypted_content)
}

/// Encoding an envelope gives its canonical bytes, unless its content exceeds the
/// encrypted-text limit.
pub open spec fn spec_encode_envelope(e: EnvelopeView) -> Result<Seq<u8>, Error> {
    if e.encrypted_content.len() > MAX_ENCRYPTED_TEXT_EVENT_SIZE {
        Err(Error::TooLarge)
    } else {
        Ok(envelope_bytes(e))
    }
}

/// What decoding `s` as an application envelope gives.
pub open spec fn spec_decode_envelope(s: Seq<u8>) -> Result<EnvelopeView, Error> {
    match spec_array_len(s, 0, 5) {
        Err(e) => Err(e),
        Ok(p1) => match spec_uint(s, p1) {
            Err(e) => Err(e),
            Ok((schema, p2)) => if schema != 2 {
                Err(Error::Malformed)
            } else {
                match spec_uint(s, p2) {
                    Err(e) => Err(e),
                    Ok((k, p3)) => match ApplicationType::spec_parse(k) {
                        Err(e) => Err(e),
                        Ok(kind) => match spec_id(s, p3) {
                            Err(e) => Err(e),
                            Ok((event_id, p4)) => match spec_id(s, p4) {
                                Err(e) => Err(e),
                                Ok((conversation_id, p5)) => match spec_bytes(s, p5) {
                                    Err(e) => Err(e),
                                    Ok((content, p6)) => if content.len()
                                        > MAX_ENCRYPTED_TEXT_EVENT_SIZE {
                                        Err(Error::TooLarge)
                                    } else if p6 != s.len() {
                                        Err(Error::TrailingBytes)
                                    } else {
                                        Ok(
                                            EnvelopeView {
                                                kind,
                                                event_id,
                                                conversation_id,
                                                encrypted_content: content,
                                            },
                                        )
                                    },
                                },
                            },
                        },
                    },
                }
            },
        },
    }
}

/// Compression policy hook for a negotiated compressor. `compressed_body` must include
/// its own compression framing; only a strictly smaller complete body is selected.
pub fn choose_compressed_body(original: &[u8], compressed_body: &[u8]) -> (r: Option<Vec<u8>>)
    ensures
        r is Some <==> compressed_body@.len() < original@.len(),
        r matches Some(v) ==> v@ == compressed_body@,
{
    if compressed_body.len() < original.len() {
        Some(vstd::slice::slice_to_vec(compressed_body))
    } else {
        None
    }
}

impl TransportFrame {
    /// Encodes the frame canonically; fails when the encoding exceeds the frame limit.
    pub fn encode(&self) -> (r: Result<Vec<u8>, Error>)
        ensures
            match spec_encode_frame(self@) {
                Ok(b) => r matches Ok(v) && v@ == b,
                Err(e) => r matches Err(x) && x == e,
            },
    {
        if self.body.len() > MAX_FRAME_SIZE {
            return Err(Error::TooLarge);
        }
        let mut e = Encoder::new();
        e.array(6);
        e.uint(1);
        e.uint(self.version as u64);
        e.uint(self.kind.code() as u64);
        e.bytes(&self.client_message_id.0);
        e.uint(self.ttl_seconds as u64);
        e.bytes(self.body.as_slice());
        let out = e.finish();
        assert(out@ =~= frame_bytes(self@));
        if out.len() > MAX_FRAME_SIZE {
            Err(Error::TooLarge)
        } else {
            Ok(out)
        }
    }

    /// Decodes exactly one canonical frame.
    pub fn decode(input: &[u8]) -> (r: Result<TransportFrame, Error>)
        ensures
            match spec_decode_frame(input@) {
                Ok(v) => r matches Ok(f) && f@ == v,
                Err(e) => r matches Err(x) && x == e,
            },
    {
        if input.len() > MAX_FRAME_SIZE {
            return Err(Error::TooLarge);
        }
        let mut d = Decoder::new(input);
        d.array_len(6)?;
        if d.uint()? != 1 {
            return Err(Error::Malformed);
        }
        let version = d.uint()?;
        if version != PROTOCOL_VERSION as u64 {
            return Err(Error::UnsupportedVersion);
        }
        let kind = FrameType::parse(d.uint()?)?;
        let id = d.id()?;
        let ttl = d.uint()?;
        if ttl > u32::MAX as u64 {
            return Err(Error::FieldOutOfRange);
        }
        let body = vstd::slice::slice_to_vec(d.bytes()?);
        d.finish()?;
        Ok(TransportFrame {
            version: version as u16,
            kind,
            client_message_id: id,
            ttl_seconds: ttl as u32,
            body,
        })
    }
}

impl ApplicationEnvelope {
    /// Encodes the envelope canonically; fails when its content exceeds 4 KiB.
    pub fn encode(&self) -> (r: Result<Vec<u8>, Error>)
        ensures
            match spec_encode_envelope(self@) {
                Ok(b) => r matches Ok(v) && v@ == b,
                Err(e) => r matches Err(x) && x == e,
            },
    {
        if self.encrypted_content.len() > MAX_ENCRYPTED_TEXT_EVENT_SIZE {
            return Err(Error::TooLarge);
        }
        let mut e = Encoder::new();
        e.array(5);
        e.uint(2);
        e.uint(self.kind.code() as u64);
        e.bytes(&self.event_id.0);
        e.bytes(&self.conversation_id.0);
        e.bytes(self.encrypted_content.as_slice());
        let out = e.finish();
        assert(out@ =~= envelope_bytes(self@));
        Ok(out)
    }

    /// Decodes exactly one canonical envelope.
    pub fn decode(input: &[u8]) -> (r: Result<ApplicationEnvelope, Error>)
        ensures
            match spec_decode_envelope(input@) {
                Ok(v) => r matches Ok(f) && f@ == v,
                Err(e) => r matches Err(x) && x == e,
            },
    {
        let mut d = Decoder::new(input);
        d.array_len(5)?;
        if d.uint()? != 2 {
            return Err(Error::Malformed);
        }
        let kind = ApplicationType::parse(d.uint()?)?;
        let event_id = d.id()?;
        let conversation_id = d.id()?;
        let encrypted_content = vstd::slice::slice_to_vec(d.bytes()?);
        if encrypted_content.len() > MAX_ENCRYPTED_TEXT_EVENT_SIZE {
            return Err(Error::TooLarge);
        }
        d.finish()?;
        Ok(ApplicationEnvelope { kind, event_id, conversation_id, encrypted_content })
    }
}


// ---------------------------------------------------------------------------
// Laws of the codec
// ---------------------------------------------------------------------------
/// Reading a canonical head gives back its major type and argument.
proof fn lemma_head_at(s: Seq<u8>, p: int, m: int, n: int)
    requires
        0 <= m < 8,
        0 <= n <= u32::MAX,
        0 <= p,
        p + head_bytes(m, n).len() <= s.len(),
        s.subrange(p, p + head_bytes(m, n).len()) == head_bytes(m, n),
    ensures
        spec_head(s, p) == Ok::<(int, int, int), Error>((m, n, p + head_bytes(m, n).len())),
{
    let h = head_bytes(m, n);
    assert(s[p] == h[0]);
    if n >= 0x100 {
        assert(s[p + 1] == h[1]);
        assert(s[p + 2] == h[2]);
    }
    if n >= 0x10000 {
        assert(s[p + 3] == h[3]);
        assert(s[p + 4] == h[4]);
    } else if n >= 24 {
        assert(s[p + 1] == h[1]);
    }
}

/// A head that reads successfully is the canonical head of what it reads as.
proof fn lemma_head_canonical(s: Seq<u8>, p: int)
    requires
        spec_head(s, p) is Ok,
    ensures
        ({
            let (m, n, q) = spec_head(s, p)->Ok_0;
            &&& 0 <= m < 8
            &&& 0 <= n <= u32::MAX
            &&& 0 <= p < q <= s.len()
            &&& q == p + head_bytes(m, n).len()
            &&& s.subrange(p, q) =~= head_bytes(m, n)
        }),
{
}

/// Reading the canonical bytes of a string gives back the string.
proof fn lemma_bytes_at(s: Seq<u8>, p: int, b: Seq<u8>)
    requires
        0 <= p,
        b.len() <= u32::MAX,
        p + byte_string(b).len() <= s.len(),
        s.subrange(p, p + byte_string(b).len()) == byte_string(b),
    ensures
        spec_bytes(s, p) == Ok::<(Seq<u8>, int), Error>((b, p + byte_string(b).len())),
{
    let h = head_bytes(2, b.len() as int);
    assert(s.subrange(p, p + h.len()) =~= h) by {
        assert forall|i: int| 0 <= i < h.len() implies s.subrange(p, p + h.len())[i] == h[i] by {
            assert(s.subrange(p, p + byte_string(b).len())[i] == byte_string(b)[i]);
        }
    }
    lemma_head_at(s, p, 2, b.len() as int);
    assert(s.subrange(p + h.len(), p + h.len() + b.len()) =~= b) by {
        assert forall|i: int| 0 <= i < b.len() implies s.subrange(
            p + h.len(),
            p + h.len() + b.len(),
        )[i] == b[i] by {
            assert(s.subrange(p, p + byte_string(b).len())[h.len() + i] == byte_string(b)[h.len()
                + i]);
        }
    }
}

/// Encoding then decoding a frame of this protocol version gives the frame back.
#[verifier::rlimit(40)]
pub proof fn lemma_frame_round_trip(f: FrameView)
    requires
        f.version == PROTOCOL_VERSION,
        f.client_message_id.len() == 16,
        spec_encode_frame(f) is Ok,
    ensures
        spec_decode_frame(spec_encode_frame(f)->Ok_0) == Ok::<FrameView, Error>(f),
{
    let s = frame_bytes(f);
    let a0 = head_bytes(4, 6);
    let a1 = head_bytes(0, 1);
    let a2 = head_bytes(0, f.version as int);
    let a3 = head_bytes(0, f.kind.spec_code() as int);
    let a4 = byte_string(f.client_message_id);
    let a5 = head_bytes(0, f.ttl_seconds as int);
    let a6 = byte_string(f.body);
    assert(s == a0 + a1 + a2 + a3 + a4 + a5 + a6);
    let p5 = 21int;
    let p6 = p5 + a5.len();
    assert(s.subrange(0, 1) =~= a0);
    lemma_head_at(s, 0, 4, 6);
    assert(s.subrange(1, 2) =~= a1);
    lemma_head_at(s, 1, 0, 1);
    assert(s.subrange(2, 3) =~= a2);
    lemma_head_at(s, 2, 0, 1);
    assert(s.subrange(3, 4) =~= a3);
    lemma_head_at(s, 3, 0, f.kind.spec_code() as int);
    lemma_frame_type_code_round_trip(f.kind);
    assert(s.subrange(4, p5) =~= a4);
    lemma_bytes_at(s, 4, f.client_message_id);
    assert(s.subrange(p5, p6) =~= a5);
    lemma_head_at(s, p5, 0, f.ttl_seconds as int);
    assert(s.subrange(p6, s.len() as int) =~= a6);
    lemma_bytes_at(s, p6, f.body);
    assert(spec_array_len(s, 0, 6) == Ok::<int, Error>(1));
    assert(spec_uint(s, 1) == Ok::<(int, int), Error>((1, 2)));
    assert(spec_uint(s, 2) == Ok::<(int, int), Error>((1, 3)));
    assert(spec_uint(s, 3) == Ok::<(int, int), Error>((f.kind.spec_code() as int, 4)));
    assert(spec_id(s, 4) == Ok::<(Seq<u8>, int), Error>((f.client_message_id, p5)));
    assert(spec_uint(s, p5) == Ok::<(int, int), Error>((f.ttl_seconds as int, p6)));
}

/// A frame decodes only from its own canonical encoding: decoding then encoding
/// gives the input back.
pub proof fn lemma_frame_canonical(s: Seq<u8>)
    requires
        spec_decode_frame(s) is Ok,
    ensures
        spec_encode_frame(spec_decode_frame(s)->Ok_0) == Ok::<Seq<u8>, Error>(s),
{
    let v = spec_decode_frame(s)->Ok_0;
    lemma_head_canonical(s, 0);
    let p1 = spec_array_len(s, 0, 6)->Ok_0;
    lemma_head_canonical(s, p1);
    let p2 = spec_uint(s, p1)->Ok_0.1;
    lemma_head_canonical(s, p2);
    let p3 = spec_uint(s, p2)->Ok_0.1;
    lemma_head_canonical(s, p3);
    let (k, p4) = spec_uint(s, p3)->Ok_0;
    lemma_frame_type_parse_canonical(k);
    lemma_head_canonical(s, p4);
    let q4 = spec_head(s, p4)->Ok_0.2;
    let p5 = spec_id(s, p4)->Ok_0.1;
    lemma_head_canonical(s, p5);
    let p6 = spec_uint(s, p5)->Ok_0.1;
    lemma_head_canonical(s, p6);
    let q6 = spec_head(s, p6)->Ok_0.2;
    assert(s =~= s.subrange(0, p1) + s.subrange(p1, p2) + s.subrange(p2, p3) + s.subrange(p3, p4)
        + (s.subrange(p4, q4) + s.subrange(q4, p5)) + s.subrange(p5, p6) + (s.subrange(p6, q6)
        + s.subrange(q6, s.len() as int)));
    assert(s =~= frame_bytes(v));
}

/// Encoding then decoding an envelope gives the envelope back.
pub proof fn lemma_envelope_round_trip(e: EnvelopeView)
    requires
        e.event_id.len() == 16,
        e.conversation_id.len() == 16,
        spec_encode_envelope(e) is Ok,
    ensures
        spec_decode_envelope(spec_encode_envelope(e)->Ok_0) == Ok::<EnvelopeView, Error>(e),
{
    let s = envelope_bytes(e);
    let a0 = head_bytes(4, 5);
    let a1 = head_bytes(0, 2);
    let a2 = head_bytes(0, e.kind.spec_code() as int);
    let a3 = byte_string(e.event_id);
    let a4 = byte_string(e.conversation_id);
    let a5 = byte_string(e.encrypted_content);
    assert(s == a0 + a1 + a2 + a3 + a4 + a5);
    assert(s.subrange(0, 1) =~= a0);
    lemma_head_at(s, 0, 4, 5);
    assert(s.subrange(1, 2) =~= a1);
    lemma_head_at(s, 1, 0, 2);
    assert(s.subrange(2, 3) =~= a2);
    lemma_head_at(s, 2, 0, e.kind.spec_code() as int);
    lemma_application_type_code_round_trip(e.kind);
    assert(s.subrange(3, 20) =~= a3);
    lemma_bytes_at(s, 3, e.event_id);
    assert(s.subrange(20, 37) =~= a4);
    lemma_bytes_at(s, 20, e.conversation_id);
    assert(s.subrange(37, s.len() as int) =~= a5);
    lemma_bytes_at(s, 37, e.encrypted_content);
}

/// An envelope decodes only from its own canonical encoding.
pub proof fn lemma_envelope_canonical(s: Seq<u8>)
    requires
        spec_decode_envelope(s) is Ok,
    ensures
        spec_encode_envelope(spec_decode_envelope(s)->Ok_0) == Ok::<Seq<u8>, Error>(s),
{
    let v = spec_decode_envelope(s)->Ok_0;
    lemma_head_canonical(s, 0);
    let p1 = spec_array_len(s, 0, 5)->Ok_0;
    lemma_head_canonical(s, p1);
    let p2 = spec_uint(s, p1)->Ok_0.1;
    lemma_head_canonical(s, p2);
    let (k, p3) = spec_uint(s, p2)->Ok_0;
    lemma_application_type_parse_canonical(k);
    lemma_head_canonical(s, p3);
    let q3 = spec_head(s, p3)->Ok_0.2;
    let p4 = spec_id(s, p3)->Ok_0.1;
    lemma_head_canonical(s, p4);
    let q4 = spec_head(s, p4)->Ok_0.2;
    let p5 = spec_id(s, p4)->Ok_0.1;
    lemma_head_canonical(s, p5);
    let q5 = spec_head(s, p5)->Ok_0.2;
    assert(s =~= s.subrange(0, p1) + s.subrange(p1, p2) + s.subrange(p2, p3) + (s.subrange(p3, q3)
        + s.subrange(q3, p4)) + (s.subrange(p4, q4) + s.subrange(q4, p5)) + (s.subrange(p5, q5)
        + s.subrange(q5, s.len() as int)));
    assert(s =~= envelope_bytes(v));
}

} // verus!
