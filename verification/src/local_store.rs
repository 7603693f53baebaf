//! The rules of the encrypted, offline-first local store shared by both mobile clients.
//!
//! Every message body is sealed under the device's master key before it reaches the
//! database. The store's state machine decides which status changes, cursor moves and
//! key rotations are allowed; the database itself is driven by the platform shell.
use crate::bytes::array16_at;
use crate::primitives::{
    lowercase_string, random_bytes, str_lowercase, string_from_utf8, unix_time_millis,
    AEAD_MESSAGE_LIMIT,
};
use crate::sealed::{open_blob, open_blob_spec, seal_with_fresh_nonce, seals};
use vstd::prelude::*;
use vstd::string::StringSliceAdditionalSpecFns;
use vstd::utf8::*;

verus! {

/// The schema version that this store writes.
pub const SCHEMA_VERSION: i64 = 2;

/// The associated data under which message bodies are sealed.
pub const MESSAGE_AAD: &'static str = "resilient/local-message/v1";

/// The most server events that one batch may bring in.
pub const MAX_INGEST_BATCH: usize = 50;

/// The most pending uploads that one read returns.
pub const MAX_PENDING_UPLOADS: usize = 50;

/// The shortest sealed row: a 24-byte nonce and a 16-byte tag.
pub const MIN_SEALED_ROW: usize = 40;

/// The longest retry backoff exponent.
pub const MAX_RETRY_EXPONENT: u32 = 10;

#[derive(Clone, Copy, Debug, PartialEq, Eq, Structural)]
pub enum CoreError {
    /// The database refused an operation.
    Database,
    Authentication,
    InvalidTransition,
    NotFound,
    InvalidMasterKey,
}

impl CoreError {
    /// The message that describes the error.
    pub fn message(&self) -> (r: &'static str)
        ensures
            r@ == (match *self {
                CoreError::Database => "database operation failed"@,
                CoreError::Authentication => "local ciphertext failed authentication"@,
                CoreError::InvalidTransition => "invalid state transition"@,
                CoreError::NotFound => "message was not found"@,
                CoreError::InvalidMasterKey => "master key must contain exactly 32 bytes"@,
            }),
    {
        match self {
            CoreError::Database => "database operation failed",
            CoreError::Authentication => "local ciphertext failed authentication",
            CoreError::InvalidTransition => "invalid state transition",
            CoreError::NotFound => "message was not found",
            CoreError::InvalidMasterKey => "master key must contain exactly 32 bytes",
        }
    }
}

#[derive(Clone, Copy, Debug, PartialEq, Eq, Structural)]
pub enum MessageStatus {
    Draft,
    Queued,
    Encrypting,
    ReadyToUpload,
    Uploading,
    ServerAccepted,
    Delivered,
    Read,
    RetryScheduled,
    FailedPermanent,
    Cancelled,
}

impl MessageStatus {
    /// The number under which a status is stored.
    pub open spec fn spec_code(self) -> i64 {
        match self {
            MessageStatus::Draft => 0,
            MessageStatus::Queued => 1,
            MessageStatus::Encrypting => 2,
            MessageStatus::ReadyToUpload => 3,
            MessageStatus::Uploading => 4,
            MessageStatus::ServerAccepted => 5,
            MessageStatus::Delivered => 6,
            MessageStatus::Read => 7,
            MessageStatus::RetryScheduled => 8,
            MessageStatus::FailedPermanent => 9,
            MessageStatus::Cancelled => 10,
        }
    }

    pub fn code(self) -> (r: i64)
        ensures
            r == self.spec_code(),
    {
        match self {
            MessageStatus::Draft => 0,
            MessageStatus::Queued => 1,
            MessageStatus::Encrypting => 2,
            MessageStatus::ReadyToUpload => 3,
            MessageStatus::Uploading => 4,
            MessageStatus::ServerAccepted => 5,
            MessageStatus::Delivered => 6,
            MessageStatus::Read => 7,
            MessageStatus::RetryScheduled => 8,
            MessageStatus::FailedPermanent => 9,
            MessageStatus::Cancelled => 10,
        }
    }

    /// The status stored as `value`; any other number is an invalid transition.
    pub fn try_from(value: i64) -> (r: Result<MessageStatus, CoreError>)
        ensures
            0 <= value <= 10 <==> r is Ok,
            r matches Ok(s) ==> s.spec_code() == value,
            r is Err ==> r == Err::<MessageStatus, CoreError>(CoreError::InvalidTransition),
    {
        match value {
            0 => Ok(MessageStatus::Draft),
            1 => Ok(MessageStatus::Queued),
            2 => Ok(MessageStatus::Encrypting),
            3 => Ok(MessageStatus::ReadyToUpload),
            4 => Ok(MessageStatus::Uploading),
            5 => Ok(MessageStatus::ServerAccepted),
            6 => Ok(MessageStatus::Delivered),
            7 => Ok(MessageStatus::Read),
            8 => Ok(MessageStatus::RetryScheduled),
            9 => Ok(MessageStatus::FailedPermanent),
            10 => Ok(MessageStatus::Cancelled),
            _ => Err(CoreError::InvalidTransition),
        }
    }
}

/// Reading back a status's stored number gives the status.
pub proof fn lemma_status_code_round_trip(s: MessageStatus)
    ensures
        0 <= s.spec_code() <= 10,
        forall|t: MessageStatus| t.spec_code() == s.spec_code() ==> t == s,
{
}

#[derive(Clone, Debug, Eq, PartialEq)]
pub struct LocalMessage {
    pub client_message_id: [u8; 16],
    pub conversation_id: [u8; 16],
    pub plaintext: String,
    pub status: MessageStatus,
    pub created_at_ms: i64,
}

#[derive(Clone, Debug, Eq, PartialEq)]
pub struct PendingUpload {
    pub client_message_id: [u8; 16],
    pub conversation_id: [u8; 16],
    pub encrypted_payload: Vec<u8>,
    pub attempts: u32,
}

#[derive(Clone, Debug, Eq, PartialEq)]
pub struct ConversationSummary {
    pub conversation_id: [u8; 16],
    pub updated_at_ms: i64,
}

#[derive(Clone, Debug, Eq, PartialEq)]
pub struct IncomingEvent {
    pub event_id: [u8; 16],
    pub conversation_id: [u8; 16],
    pub encrypted_event: Vec<u8>,
}

#[derive(Clone, Debug, Eq, PartialEq)]
pub struct CachedRelayDirectory {
    pub version: u64,
    pub signed_directory: Vec<u8>,
    pub expires_at_ms: i64,
}

#[derive(Clone, Copy, Debug, Eq, PartialEq, Structural)]
pub enum NetworkMode {
    Normal,
    Limited,
    Survival,
}

impl NetworkMode {
    /// The number under which a mode is stored.
    pub open spec fn spec_code(self) -> i64 {
        match self {
            NetworkMode::Normal => 0,
            NetworkMode::Limited => 1,
            NetworkMode::Survival => 2,
        }
    }

    pub fn code(self) -> (r: i64)
        ensures
            r == self.spec_code(),
    {
        match self {
            NetworkMode::Normal => 0,
            NetworkMode::Limited => 1,
            NetworkMode::Survival => 2,
        }
    }

    /// The mode stored as `value`; another number means the stored state was tampered
    /// with, which is reported as an authentication failure.
    pub fn from_code(value: i64) -> (r: Result<NetworkMode, CoreError>)
        ensures
            0 <= value <= 2 <==> r is Ok,
            r matches Ok(m) ==> m.spec_code() == value,
            r is Err ==> r == Err::<NetworkMode, CoreError>(CoreError::Authentication),
    {
        match value {
            0 => Ok(NetworkMode::Normal),
            1 => Ok(NetworkMode::Limited),
            2 => Ok(NetworkMode::Survival),
            _ => Err(CoreError::Authentication),
        }
    }
}

#[derive(Clone, Debug, Eq, PartialEq, Structural)]
pub struct NetworkDiagnostics {
    pub mode: NetworkMode,
    pub pending_uploads: u64,
    pub last_cursor: u64,
}

// ---------------------------------------------------------------------------
// Keys, identifiers and time
// ---------------------------------------------------------------------------
/// A master key of exactly 32 bytes.
pub fn master_key(bytes: &[u8]) -> (r: Result<[u8; 32], CoreError>)
    ensures
        bytes@.len() == 32 <==> r is Ok,
        r matches Ok(k) ==> k@ == bytes@,
        r is Err ==> r == Err::<[u8; 32], CoreError>(CoreError::InvalidMasterKey),
{
    if bytes.len() != 32 {
        return Err(CoreError::InvalidMasterKey);
    }
    let key = crate::bytes::array32_at(bytes, 0);
    assert(key@ =~= bytes@);
    Ok(key)
}

/// A stored 16-byte ID; a stored value of another size means the row was tampered with.
pub fn fixed_id(value: &[u8]) -> (r: Result<[u8; 16], CoreError>)
    ensures
        value@.len() == 16 <==> r is Ok,
        r matches Ok(id) ==> id@ == value@,
        r is Err ==> r == Err::<[u8; 16], CoreError>(CoreError::Authentication),
{
    if value.len() != 16 {
        return Err(CoreError::Authentication);
    }
    let id = array16_at(value, 0);
    assert(id@ =~= value@);
    Ok(id)
}

/// A fresh random 16-byte ID.
pub fn random_id() -> (r: [u8; 16]) {
    let bytes = random_bytes(16);
    array16_at(bytes.as_slice(), 0)
}

/// Milliseconds since the Unix epoch, clamped to `i64::MAX`.
pub fn now_ms() -> (r: i64)
    ensures
        r >= 0,
{
    millis_to_i64(unix_time_millis())
}

/// A count of milliseconds as an `i64`, clamped to `i64::MAX`.
pub fn millis_to_i64(ms: u128) -> (r: i64)
    ensures
        r == if ms > i64::MAX { i64::MAX as int } else { ms as int },
{
    if ms > 0x7fff_ffff_ffff_ffffu128 {
        i64::MAX
    } else {
        ms as i64
    }
}

// ---------------------------------------------------------------------------
// Sealed rows
// ---------------------------------------------------------------------------
/// What opening a stored row gives: rows shorter than a nonce and a tag, and rows that
/// fail authentication, are refused.
pub open spec fn spec_decrypt_row(key: Seq<u8>, blob: Seq<u8>) -> Result<Seq<u8>, CoreError> {
    if blob.len() < MIN_SEALED_ROW {
        Err(CoreError::Authentication)
    } else {
        match open_blob_spec(key, MESSAGE_AAD.spec_bytes(), blob) {
            Some(p) => Ok(p),
            None => Err(CoreError::Authentication),
        }
    }
}

/// Seals a row under a fresh nonce. Only a body beyond the cipher's limit is refused.
pub fn encrypt_row(key: &[u8; 32], plaintext: &[u8]) -> (r: Result<Vec<u8>, CoreError>)
    ensures
        plaintext@.len() < AEAD_MESSAGE_LIMIT <==> r is Ok,
        r matches Ok(b) ==> seals(key@, MESSAGE_AAD.spec_bytes(), plaintext@, b@),
        r matches Ok(b) ==> spec_decrypt_row(key@, b@) == Ok::<Seq<u8>, CoreError>(plaintext@),
        r is Err ==> r == Err::<Vec<u8>, CoreError>(CoreError::Authentication),
{
    match seal_with_fresh_nonce(key, MESSAGE_AAD.as_bytes(), plaintext) {
        Some(b) => Ok(b),
        None => Err(CoreError::Authentication),
    }
}

/// Opens a stored row.
pub fn decrypt_row(key: &[u8; 32], blob: &[u8]) -> (r: Result<Vec<u8>, CoreError>)
    ensures
        match spec_decrypt_row(key@, blob@) {
            Ok(p) => r matches Ok(v) && v@ == p,
            Err(e) => r matches Err(x) && x == e,
        },
{
    if blob.len() < MIN_SEALED_ROW {
        return Err(CoreError::Authentication);
    }
    match open_blob(key, MESSAGE_AAD.as_bytes(), blob) {
        Some(p) => Ok(p),
        None => Err(CoreError::Authentication),
    }
}

/// What opening a stored message body gives: its text, which must be UTF-8.
pub open spec fn spec_decrypt_text(key: Seq<u8>, blob: Seq<u8>) -> Result<Seq<char>, CoreError> {
    match spec_decrypt_row(key, blob) {
        Err(e) => Err(e),
        Ok(p) => if valid_utf8(p) {
            Ok(decode_utf8(p))
        } else {
            Err(CoreError::Authentication)
        },
    }
}

pub fn decrypt_text(key: &[u8; 32], blob: &[u8]) -> (r: Result<String, CoreError>)
    ensures
        match spec_decrypt_text(key@, blob@) {
            Ok(t) => r matches Ok(s) && s@ == t,
            Err(e) => r matches Err(x) && x == e,
        },
{
    let p = decrypt_row(key, blob)?;
    match string_from_utf8(p.as_slice()) {
        Some(s) => Ok(s),
        None => Err(CoreError::Authentication),
    }
}

/// A stored row re-sealed under a new key, as a key rotation does it.
pub fn reencrypt_row(old_key: &[u8; 32], new_key: &[u8; 32], blob: &[u8]) -> (r: Result<
    Vec<u8>,
    CoreError,
>)
    ensures
        match spec_decrypt_row(old_key@, blob@) {
            Err(e) => r == Err::<Vec<u8>, CoreError>(e),
            Ok(p) => if p.len() < AEAD_MESSAGE_LIMIT {
                r matches Ok(b) && spec_decrypt_row(new_key@, b@) == Ok::<Seq<u8>, CoreError>(p)
            } else {
                r == Err::<Vec<u8>, CoreError>(CoreError::Authentication)
            },
        },
{
    let plaintext = decrypt_row(old_key, blob)?;
    encrypt_row(new_key, plaintext.as_slice())
}

/// A row sealed by `encrypt_row` opens to its plaintext under the same key: what the
/// store writes, it reads back, after a restart too.
pub proof fn lemma_row_round_trip(key: Seq<u8>, plaintext: Seq<u8>, blob: Seq<u8>)
    requires
        seals(key, MESSAGE_AAD.spec_bytes(), plaintext, blob),
        open_blob_spec(key, MESSAGE_AAD.spec_bytes(), blob) == Some(plaintext),
    ensures
        spec_decrypt_row(key, blob) == Ok::<Seq<u8>, CoreError>(plaintext),
{
}

// ---------------------------------------------------------------------------
// The message state machine
// ---------------------------------------------------------------------------
/// A status from which a relay's acceptance moves a message to `ServerAccepted`.
pub open spec fn accepts_upload(s: i64) -> bool {
    s == MessageStatus::ReadyToUpload.spec_code() || s == MessageStatus::Uploading.spec_code() || s
        == MessageStatus::RetryScheduled.spec_code()
}

/// What a relay's acceptance does to a message of status `status` (`None`: no such
/// message): `Ok(true)` moves it to `ServerAccepted` and drops it from the outbox;
/// `Ok(false)` is a repeated acceptance, which only drops it from the outbox.
pub open spec fn spec_upload_acceptance(status: Option<i64>) -> Result<bool, CoreError> {
    match status {
        None => Err(CoreError::NotFound),
        Some(s) => if accepts_upload(s) {
            Ok(true)
        } else if s == MessageStatus::ServerAccepted.spec_code() {
            Ok(false)
        } else {
            Err(CoreError::InvalidTransition)
        },
    }
}

pub fn upload_acceptance(status: Option<i64>) -> (r: Result<bool, CoreError>)
    ensures
        r == spec_upload_acceptance(status),
{
    match status {
        None => Err(CoreError::NotFound),
        Some(s) => if s == 3 || s == 4 || s == 8 {
            Ok(true)
        } else if s == 5 {
            Ok(false)
        } else {
            Err(CoreError::InvalidTransition)
        },
    }
}

/// Accepting an upload twice is harmless: the second time finds `ServerAccepted` and
/// succeeds without a change.
pub proof fn lemma_acceptance_idempotent(status: i64)
    requires
        spec_upload_acceptance(Some(status)) is Ok,
    ensures
        spec_upload_acceptance(Some(MessageStatus::ServerAccepted.spec_code())) == Ok::<bool, CoreError>(false),
{
}

/// The status numbers as the store writes them: Draft 0, Queued 1, Encrypting 2,
/// ReadyToUpload 3, Uploading 4, ServerAccepted 5, Delivered 6, Read 7, RetryScheduled 8,
/// FailedPermanent 9, Cancelled 10.
pub proof fn lemma_status_numbers()
    ensures
        MessageStatus::Draft.spec_code() == 0,
        MessageStatus::Queued.spec_code() == 1,
        MessageStatus::Encrypting.spec_code() == 2,
        MessageStatus::ReadyToUpload.spec_code() == 3,
        MessageStatus::Uploading.spec_code() == 4,
        MessageStatus::ServerAccepted.spec_code() == 5,
        MessageStatus::Delivered.spec_code() == 6,
        MessageStatus::Read.spec_code() == 7,
        MessageStatus::RetryScheduled.spec_code() == 8,
        MessageStatus::FailedPermanent.spec_code() == 9,
        MessageStatus::Cancelled.spec_code() == 10,
{
}

/// The network modes as the store writes them: Normal 0, Limited 1, Survival 2.
pub proof fn lemma_network_mode_numbers()
    ensures
        NetworkMode::Normal.spec_code() == 0,
        NetworkMode::Limited.spec_code() == 1,
        NetworkMode::Survival.spec_code() == 2,
{
}

/// A stored counter moves only forwards or stays: an unset counter takes any value, and a
/// set one (never negative) takes exactly the values not below it.
pub proof fn lemma_counter_never_backwards(current: Option<i64>, next: u64)
    ensures
        current is None ==> counter_may_become(current, next),
        forall|v: i64| current == Some(v) && v >= 0 ==> (counter_may_become(current, next) <==> next >= v),
{
}

/// A relay's acceptance moves a message to ServerAccepted from exactly the statuses of
/// the upload path: ReadyToUpload (3), Uploading (4) and RetryScheduled (8). A message
/// already ServerAccepted (5) takes it again without a change; from any other status it
/// is an invalid transition, and a missing message is not found.
pub proof fn lemma_upload_acceptance_statuses(status: Option<i64>)
    ensures
        status is None ==> spec_upload_acceptance(status) == Err::<bool, CoreError>(CoreError::NotFound),
        status matches Some(s) ==> (spec_upload_acceptance(status) == Ok::<bool, CoreError>(true) <==> (s == 3
            || s == 4 || s == 8)),
        status matches Some(s) ==> (spec_upload_acceptance(status) == Ok::<bool, CoreError>(false) <==> s == 5),
        status matches Some(s) ==> (spec_upload_acceptance(status) is Err <==> !(s == 3 || s == 4 || s == 5
            || s == 8)),
        spec_upload_acceptance(status) is Err ==> spec_upload_acceptance(status) == Err::<bool, CoreError>(
            CoreError::NotFound,
        ) || spec_upload_acceptance(status) == Err::<bool, CoreError>(CoreError::InvalidTransition),
{
}

/// A message may be cancelled from exactly Queued (1), ReadyToUpload (3) and
/// RetryScheduled (8).
pub proof fn lemma_cancellable_statuses(s: i64)
    ensures
        cancellable(s) <==> (s == 1 || s == 3 || s == 8),
{
}

/// A status from which a message may still be cancelled.
pub open spec fn cancellable(s: i64) -> bool {
    s == MessageStatus::Queued.spec_code() || s == MessageStatus::ReadyToUpload.spec_code() || s
        == MessageStatus::RetryScheduled.spec_code()
}

/// Cancelling succeeds only before the message is on its way; a message that is not
/// there cannot be cancelled either.
pub fn cancel_decision(status: Option<i64>) -> (r: Result<(), CoreError>)
    ensures
        r is Ok <==> (status matches Some(s) && cancellable(s)),
        r is Err ==> r == Err::<(), CoreError>(CoreError::InvalidTransition),
{
    match status {
        Some(s) => if s == 1 || s == 3 || s == 8 {
            Ok(())
        } else {
            Err(CoreError::InvalidTransition)
        },
        None => Err(CoreError::InvalidTransition),
    }
}

/// What a delivery or read receipt does to a message of status `status`: it moves the
/// status up to `target` but never back (`Ok(true)` changes it).
pub open spec fn spec_receipt_transition(status: Option<i64>, target: MessageStatus) -> Result<
    bool,
    CoreError,
> {
    match status {
        None => Err(CoreError::NotFound),
        Some(s) => Ok(s < target.spec_code()),
    }
}

pub fn receipt_transition(status: Option<i64>, target: MessageStatus) -> (r: Result<bool, CoreError>)
    ensures
        r == spec_receipt_transition(status, target),
{
    match status {
        None => Err(CoreError::NotFound),
        Some(s) => Ok(s < target.code()),
    }
}

/// The status after a receipt.
pub open spec fn after_receipt(s: i64, target: MessageStatus) -> i64 {
    if s < target.spec_code() {
        target.spec_code()
    } else {
        s
    }
}

/// Receipts never move a message backwards, and their order does not matter: a read
/// receipt before or after a delivery receipt leaves the message read.
pub proof fn lemma_receipts_commute(s: i64, a: MessageStatus, b: MessageStatus)
    ensures
        after_receipt(s, a) >= s,
        after_receipt(after_receipt(s, a), b) == after_receipt(after_receipt(s, b), a),
{
}

/// The wait before the next upload attempt: one second, doubled per earlier attempt, at
/// most 2^10 seconds.
pub open spec fn spec_retry_delay_ms(attempts: u32) -> int {
    1000 * (1i64 << (if attempts < MAX_RETRY_EXPONENT { attempts } else { MAX_RETRY_EXPONENT }))
}

pub fn retry_delay_ms(attempts: u32) -> (r: i64)
    ensures
        r == spec_retry_delay_ms(attempts),
        1000 <= r <= 1024000,
{
    let exponent = if attempts < MAX_RETRY_EXPONENT {
        attempts
    } else {
        MAX_RETRY_EXPONENT
    };
    assert(1 <= (1i64 << exponent) <= 1024) by (bit_vector)
        requires
            exponent <= 10u32,
    ;
    1000 * (1i64 << exponent)
}

/// Later attempts never wait less.
pub proof fn lemma_retry_delay_monotonic(a: u32, b: u32)
    requires
        a <= b,
    ensures
        spec_retry_delay_ms(a) <= spec_retry_delay_ms(b),
{
    let ea = if a < MAX_RETRY_EXPONENT { a } else { MAX_RETRY_EXPONENT };
    let eb = if b < MAX_RETRY_EXPONENT { b } else { MAX_RETRY_EXPONENT };
    assert(ea <= eb <= 10u32 ==> (1i64 << ea) <= (1i64 << eb)) by (bit_vector);
}

/// The first retry waits one second, each further attempt doubles the wait up to the
/// tenth, and from then on the wait stays at 1024 seconds.
pub proof fn lemma_retry_delay_doubles(attempts: u32)
    ensures
        spec_retry_delay_ms(0) == 1000,
        attempts < 10 ==> spec_retry_delay_ms((attempts + 1) as u32) == 2 * spec_retry_delay_ms(attempts),
        attempts >= 10 ==> spec_retry_delay_ms(attempts) == 1024000,
{
    assert((1i64 << 0u32) == 1) by (bit_vector);
    assert(attempts < 10u32 ==> (1i64 << ((attempts + 1) as u32)) == 2 * (1i64 << attempts)) by (bit_vector);
    assert((1i64 << 10u32) == 1024) by (bit_vector);
}

/// When a message is next tried after `attempts` earlier attempts, counted from `now`.
pub fn next_attempt_at_ms(now: i64, attempts: u32) -> (r: i64)
    requires
        now <= i64::MAX - 1024000,
    ensures
        r == now + spec_retry_delay_ms(attempts),
{
    now + retry_delay_ms(attempts)
}

/// A batch of server events holds at most 50.
pub fn check_ingest_batch(count: usize) -> (r: Result<(), CoreError>)
    ensures
        r is Ok <==> count <= MAX_INGEST_BATCH,
        r is Err ==> r == Err::<(), CoreError>(CoreError::InvalidTransition),
{
    if count > MAX_INGEST_BATCH {
        Err(CoreError::InvalidTransition)
    } else {
        Ok(())
    }
}

/// How many pending uploads one read returns: at most 50.
pub fn pending_limit(limit: usize) -> (r: i64)
    ensures
        r == if limit < MAX_PENDING_UPLOADS { limit as int } else { MAX_PENDING_UPLOADS as int },
{
    if limit < MAX_PENDING_UPLOADS {
        limit as i64
    } else {
        MAX_PENDING_UPLOADS as i64
    }
}

/// A stored counter (a sync cursor, or the version of a cached relay directory) never
/// moves backwards.
pub open spec fn counter_may_become(current: Option<i64>, next: u64) -> bool {
    match current {
        None => true,
        Some(v) => next >= (v as u64),
    }
}

/// Allows a counter to move from `current` to `next` only forwards or to the same value.
pub fn check_counter_update(current: Option<i64>, next: u64) -> (r: Result<(), CoreError>)
    ensures
        r is Ok <==> counter_may_become(current, next),
        r is Err ==> r == Err::<(), CoreError>(CoreError::InvalidTransition),
{
    match current {
        Some(v) => if next < v as u64 {
            Err(CoreError::InvalidTransition)
        } else {
            Ok(())
        },
        None => Ok(()),
    }
}

/// The revision a caller observes: the stored one, but never less than what it saw.
pub fn observed_revision(revision: i64, after_revision: u64) -> (r: u64)
    ensures
        r == if (revision as u64) < after_revision { after_revision } else { revision as u64 },
{
    let stored = revision as u64;
    if stored < after_revision {
        after_revision
    } else {
        stored
    }
}

/// A key rotation moves the key version up by exactly one.
pub fn check_key_rotation(current_version: i64, new_version: u32) -> (r: Result<(), CoreError>)
    requires
        current_version < i64::MAX,
    ensures
        r is Ok <==> new_version as int == current_version + 1,
        r is Err ==> r == Err::<(), CoreError>(CoreError::InvalidTransition),
{
    if new_version as i64 != current_version + 1 {
        Err(CoreError::InvalidTransition)
    } else {
        Ok(())
    }
}

/// A database may be opened only if it is not newer than this store.
pub fn schema_supported(version: i64) -> (r: bool)
    ensures
        r == (version <= SCHEMA_VERSION),
{
    version <= SCHEMA_VERSION
}

// ---------------------------------------------------------------------------
// Reading rows
// ---------------------------------------------------------------------------
/// A message read from its stored row: its body opened and decoded, its ID and its
/// status checked, in that order.
pub fn message_from_row(
    key: &[u8; 32],
    client_message_id: &[u8],
    conversation_id: &[u8],
    ciphertext: &[u8],
    status: i64,
    created_at_ms: i64,
) -> (r: Result<LocalMessage, CoreError>)
    ensures
        r is Ok <==> (spec_decrypt_text(key@, ciphertext@) is Ok && client_message_id@.len() == 16
            && conversation_id@.len() == 16 && 0 <= status <= 10),
        r matches Ok(m) ==> spec_decrypt_text(key@, ciphertext@) == Ok::<Seq<char>, CoreError>(
            m.plaintext@,
        ) && m.client_message_id@ == client_message_id@ && m.conversation_id@ == conversation_id@
            && m.status.spec_code() == status && m.created_at_ms == created_at_ms,
        r matches Err(e) ==> (spec_decrypt_text(key@, ciphertext@) matches Err(x) && e == x) || e
            == CoreError::Authentication || e == CoreError::InvalidTransition,
{
    let plaintext = decrypt_text(key, ciphertext)?;
    let id = fixed_id(client_message_id)?;
    let conversation = fixed_id(conversation_id)?;
    let status = MessageStatus::try_from(status)?;
    Ok(
        LocalMessage {
            client_message_id: id,
            conversation_id: conversation,
            plaintext,
            status,
            created_at_ms,
        },
    )
}

/// `hay` holds `needle` somewhere.
pub open spec fn contains_bytes(hay: Seq<u8>, needle: Seq<u8>) -> bool {
    exists|i: int| 0 <= i && i + needle.len() <= hay.len() && #[trigger] hay.subrange(i, i + needle.len()) == needle
}

fn find_bytes(hay: &[u8], needle: &[u8]) -> (r: bool)
    ensures
        r == contains_bytes(hay@, needle@),
{
    let n = needle.len();
    if n > hay.len() {
        return false;
    }
    let hlen = hay.len();
    let mut i: usize = 0;
    while i <= hlen - n
        invariant
            n == needle@.len(),
            hlen == hay@.len(),
            n <= hay@.len(),
            0 <= i <= hay@.len() - n + 1,
            forall|k: int| 0 <= k < i ==> #[trigger] hay@.subrange(k, k + n) != needle@,
        decreases hay@.len() - i,
    {
        let mut j: usize = 0;
        let mut same = true;
        while j < n
            invariant
                n == needle@.len(),
                hlen == hay@.len(),
                i + n <= hay@.len(),
                0 <= j <= n,
                same == (forall|m: int| 0 <= m < j ==> hay@[i + m] == needle@[m]),
            decreases n - j,
        {
            if hay[i + j] != needle[j] {
                same = false;
            }
            j = j + 1;
        }
        if same {
            assert(hay@.subrange(i as int, i + n) =~= needle@);
            return true;
        }
        assert(hay@.subrange(i as int, i + n) != needle@) by {
            let m = choose|m: int| 0 <= m < n && hay@[i + m] != needle@[m];
            assert(hay@.subrange(i as int, i + n)[m] != needle@[m]);
        }
        i = i + 1;
    }
    false
}

/// Whether a message body matches a search, case-insensitively: the lower-cased body
/// holds the lower-cased query.
pub open spec fn search_matches_spec(plaintext: Seq<char>, query: Seq<char>) -> bool {
    contains_bytes(encode_utf8(str_lowercase(plaintext)), encode_utf8(str_lowercase(query)))
}

pub fn search_matches(plaintext: &str, query: &str) -> (r: bool)
    ensures
        r == search_matches_spec(plaintext@, query@),
{
    let text = lowercase_string(plaintext);
    let q = lowercase_string(query);
    find_bytes(text.as_str().as_bytes(), q.as_str().as_bytes())
}

/// One row of a search: the message if its body matches `query`, else nothing. The body
/// is opened first; the row's IDs and status are checked only for a match.
pub fn search_row(
    key: &[u8; 32],
    query: &str,
    client_message_id: &[u8],
    conversation_id: &[u8],
    ciphertext: &[u8],
    status: i64,
    created_at_ms: i64,
) -> (r: Result<Option<LocalMessage>, CoreError>)
    ensures
        match spec_decrypt_text(key@, ciphertext@) {
            Err(e) => r == Err::<Option<LocalMessage>, CoreError>(e),
            Ok(text) => if !search_matches_spec(text, query@) {
                r == Ok::<Option<LocalMessage>, CoreError>(None)
            } else if client_message_id@.len() != 16 || conversation_id@.len() != 16 {
                r == Err::<Option<LocalMessage>, CoreError>(CoreError::Authentication)
            } else if !(0 <= status <= 10) {
                r == Err::<Option<LocalMessage>, CoreError>(CoreError::InvalidTransition)
            } else {
                r matches Ok(Some(m)) && m.plaintext@ == text && m.client_message_id@
                    == client_message_id@ && m.conversation_id@ == conversation_id@
                    && m.status.spec_code() == status && m.created_at_ms == created_at_ms
            },
        },
{
    let plaintext = decrypt_text(key, ciphertext)?;
    if !search_matches(plaintext.as_str(), query) {
        return Ok(None);
    }
    let id = fixed_id(client_message_id)?;
    let conversation = fixed_id(conversation_id)?;
    let status = MessageStatus::try_from(status)?;
    Ok(
        Some(
            LocalMessage {
                client_message_id: id,
                conversation_id: conversation,
                plaintext,
                status,
                created_at_ms,
            },
        ),
    )
}

} // verus!
