//! The rules of ciphertext delivery and device-bound authentication.
//!
//! The delivery service keeps its state in a database; every decision it takes between
//! two queries is here, as a function of what the queries returned: which credentials
//! are accepted, when a request is a replay or a conflict, and what limits apply.
use crate::bytes::{be16, bytes_equal, push_be16, push_bytes};
use crate::identity::{
    account_id_from_root_public, account_id_spec, auth_challenge_payload, canonical_username,
    canonical_username_spec, certificate_verifies, refresh_proof_payload, verify_device_certificate,
    username_char_allowed, DeviceCertificate, IdentityError, AUTH_CHALLENGE_DOMAIN, REFRESH_PROOF_DOMAIN,
};
use crate::primitives::{ed25519_accepts, ed25519_verify, sha256, sha256_digest};
use vstd::prelude::*;
use vstd::string::StringSliceAdditionalSpecFns;
use vstd::utf8::*;

verus! {

pub const ACCESS_TTL_SECONDS: i64 = 900;

pub const REFRESH_TTL_SECONDS: i64 = 2592000;

pub const CHALLENGE_TTL_SECONDS: i64 = 120;

pub const EVENT_TTL_SECONDS: i64 = 604800;

pub const MAX_SYNC_BATCH: i64 = 50;

pub const MAX_KEY_PACKAGE_SIZE: usize = 65536;

pub const MAX_RECOVERY_BLOB_SIZE: usize = 262144;

/// The largest ciphertext or Welcome that one upload may carry.
pub const MAX_UPLOAD_SIZE: usize = 65536;

/// The longest rate-limit scope, in bytes.
pub const MAX_RATE_SCOPE: usize = 96;

pub const EVENT_KIND_MLS_COMMIT: i16 = 2;

pub const EVENT_NOTIFY_CHANNEL: &'static str = "device_events";

/// Domain separator of membership operations.
pub const MEMBERSHIP_OPERATION_DOMAIN: &'static str = "resilient/membership-operation/v1";

/// Domain separator of session token hashes.
pub const SESSION_DOMAIN: &'static str = "resilient/session/v1";

/// The token-hash domain of access tokens.
pub const ACCESS_TOKEN_DOMAIN: &'static str = "access";

/// The token-hash domain of refresh tokens.
pub const REFRESH_TOKEN_DOMAIN: &'static str = "refresh";

#[derive(Clone, Copy, Debug, PartialEq, Eq, Structural)]
pub enum ApiError {
    InvalidCredentials,
    Expired,
    Replay,
    TokenReuse,
    Conflict,
    Unauthorized,
    CursorRegression,
    InvalidInput,
    Database,
}

impl ApiError {
    /// The message that describes the error.
    pub fn message(&self) -> (r: &'static str)
        ensures
            r@ == (match *self {
                ApiError::InvalidCredentials => "invalid credentials"@,
                ApiError::Expired => "request expired"@,
                ApiError::Replay => "request was already consumed"@,
                ApiError::TokenReuse => "refresh token reuse detected"@,
                ApiError::Conflict => "resource already exists"@,
                ApiError::Unauthorized => "request is not authorized"@,
                ApiError::CursorRegression => "cursor cannot move backwards"@,
                ApiError::InvalidInput => "input is invalid"@,
                ApiError::Database => "database operation failed"@,
            }),
    {
        match self {
            ApiError::InvalidCredentials => "invalid credentials",
            ApiError::Expired => "request expired",
            ApiError::Replay => "request was already consumed",
            ApiError::TokenReuse => "refresh token reuse detected",
            ApiError::Conflict => "resource already exists",
            ApiError::Unauthorized => "request is not authorized",
            ApiError::CursorRegression => "cursor cannot move backwards",
            ApiError::InvalidInput => "input is invalid",
            ApiError::Database => "database operation failed",
        }
    }
}

#[derive(Clone, Copy, Debug)]
pub struct Challenge {
    pub challenge_id: [u8; 16],
    pub challenge: [u8; 32],
}

#[derive(Clone, Copy, Debug)]
pub struct SessionTokens {
    pub access_token: [u8; 32],
    pub refresh_token: [u8; 32],
}

#[derive(Clone, Debug)]
pub struct UploadedEvent {
    pub event_id: [u8; 16],
    pub group_id: [u8; 16],
    pub author_device_id: [u8; 16],
    pub client_message_id: [u8; 16],
    pub event_kind: i16,
    pub ciphertext: Vec<u8>,
    pub correlation_id: Option<[u8; 16]>,
}

#[derive(Clone, Copy, Debug, PartialEq, Eq, Structural)]
pub struct UploadAccepted {
    pub cursor: i64,
    pub duplicate: bool,
}

#[derive(Clone, Debug, PartialEq, Eq)]
pub struct SyncEvent {
    pub cursor: i64,
    pub event_id: [u8; 16],
    pub event_kind: i16,
    pub ciphertext: Vec<u8>,
}

#[derive(Clone, Copy, Debug)]
pub struct MembershipOperation {
    pub correlation_id: [u8; 16],
    pub group_id: [u8; 16],
    pub author_device_id: [u8; 16],
    pub target_device_id: [u8; 16],
    pub role: i16,
    pub remove: bool,
    pub signature: [u8; 64],
}

// ---------------------------------------------------------------------------
// Signed and hashed byte strings
// ---------------------------------------------------------------------------
/// The bytes that a group admin signs for a membership operation.
pub open spec fn membership_payload_spec(
    correlation_id: Seq<u8>,
    group_id: Seq<u8>,
    author_device_id: Seq<u8>,
    target_device_id: Seq<u8>,
    role: i16,
    remove: bool,
) -> Seq<u8> {
    MEMBERSHIP_OPERATION_DOMAIN.spec_bytes() + correlation_id + group_id + author_device_id
        + target_device_id + be16(role as u16) + seq![if remove { 1u8 } else { 0u8 }]
}

pub fn membership_operation_payload(
    correlation_id: &[u8; 16],
    group_id: &[u8; 16],
    author_device_id: &[u8; 16],
    target_device_id: &[u8; 16],
    role: i16,
    remove: bool,
) -> (r: Vec<u8>)
    ensures
        r@ == membership_payload_spec(
            correlation_id@,
            group_id@,
            author_device_id@,
            target_device_id@,
            role,
            remove,
        ),
{
    let mut value: Vec<u8> = Vec::new();
    push_bytes(&mut value, MEMBERSHIP_OPERATION_DOMAIN.as_bytes());
    push_bytes(&mut value, correlation_id);
    push_bytes(&mut value, group_id);
    push_bytes(&mut value, author_device_id);
    push_bytes(&mut value, target_device_id);
    push_be16(&mut value, role as u16);
    value.push(if remove { 1u8 } else { 0u8 });
    assert(value@ =~= membership_payload_spec(
        correlation_id@,
        group_id@,
        author_device_id@,
        target_device_id@,
        role,
        remove,
    ));
    value
}

/// The hash under which the service stores a session token: SHA-256 over the session
/// domain, the token's domain and the token. The token itself is never stored.
pub open spec fn token_hash_spec(domain: Seq<u8>, token: Seq<u8>) -> Seq<u8> {
    sha256(SESSION_DOMAIN.spec_bytes() + domain + token)
}

pub fn token_hash(domain: &[u8], token: &[u8]) -> (r: [u8; 32])
    ensures
        r@ == token_hash_spec(domain@, token@),
{
    let mut data: Vec<u8> = Vec::new();
    push_bytes(&mut data, SESSION_DOMAIN.as_bytes());
    push_bytes(&mut data, domain);
    push_bytes(&mut data, token);
    sha256_digest(data.as_slice())
}

// ---------------------------------------------------------------------------
// Decisions
// ---------------------------------------------------------------------------
/// A byte string of at least one and at most `limit` bytes.
pub open spec fn payload_fits(payload: Seq<u8>, limit: usize) -> bool {
    0 < payload.len() <= limit
}

/// Accepts a non-empty payload of at most `limit` bytes; anything else is invalid input.
pub fn check_payload_size(payload: &[u8], limit: usize) -> (r: Result<(), ApiError>)
    ensures
        r is Ok <==> payload_fits(payload@, limit),
        r is Err ==> r == Err::<(), ApiError>(ApiError::InvalidInput),
{
    if payload.len() == 0 || payload.len() > limit {
        Err(ApiError::InvalidInput)
    } else {
        Ok(())
    }
}

/// A rate-limit request names a scope of 1 to 96 bytes, a positive maximum and a positive
/// window.
pub open spec fn rate_limit_request_valid(scope: Seq<u8>, maximum: i32, window_seconds: i64) -> bool {
    0 < scope.len() <= MAX_RATE_SCOPE && maximum >= 1 && window_seconds >= 1
}

pub fn check_rate_limit_request(scope: &[u8], maximum: i32, window_seconds: i64) -> (r: Result<
    (),
    ApiError,
>)
    ensures
        r is Ok <==> rate_limit_request_valid(scope@, maximum, window_seconds),
        r is Err ==> r == Err::<(), ApiError>(ApiError::InvalidInput),
{
    if scope.len() == 0 || scope.len() > MAX_RATE_SCOPE || maximum < 1 || window_seconds < 1 {
        Err(ApiError::InvalidInput)
    } else {
        Ok(())
    }
}

/// What the size and rate-limit checks admit: a payload of 1 to `limit` bytes, and a
/// rate-limit request with a scope of 1 to 96 bytes, a maximum of at least one and a window
/// of at least one second.
pub proof fn lemma_request_limits(payload: Seq<u8>, limit: usize, scope: Seq<u8>, maximum: i32, window_seconds: i64)
    ensures
        payload_fits(payload, limit) <==> (1 <= payload.len() && payload.len() <= limit),
        rate_limit_request_valid(scope, maximum, window_seconds) <==> (1 <= scope.len() <= 96 && maximum >= 1
            && window_seconds >= 1),
{
}

/// The verdict on a request that is the `count`-th in its window: refused once the count
/// passes the maximum.
pub fn rate_limit_verdict(count: i32, maximum: i32) -> (r: Result<(), ApiError>)
    ensures
        r is Ok <==> count <= maximum,
        r is Err ==> r == Err::<(), ApiError>(ApiError::Unauthorized),
{
    if count > maximum {
        Err(ApiError::Unauthorized)
    } else {
        Ok(())
    }
}

/// A device registers only with the account ID of the root key and a certificate that
/// the root key signed.
pub fn check_registration(account_id: &[u8; 32], root_public_key: &[u8; 32], cert: &DeviceCertificate) -> (r:
    Result<(), ApiError>)
    ensures
        r is Ok <==> (account_id@ == account_id_spec(root_public_key@) && certificate_verifies(
            root_public_key@,
            *cert,
        )),
        r is Err ==> r == Err::<(), ApiError>(ApiError::InvalidCredentials),
{
    let derived = account_id_from_root_public(root_public_key);
    if !bytes_equal(&derived, account_id) || !verify_device_certificate(root_public_key, cert) {
        Err(ApiError::InvalidCredentials)
    } else {
        Ok(())
    }
}

/// The verdict on registering a device, from whether its ID is taken and whether the
/// account row holds this root key.
pub fn registration_verdict(device_exists: bool, account_matches: bool) -> (r: Result<(), ApiError>)
    ensures
        device_exists ==> r == Err::<(), ApiError>(ApiError::Replay),
        !device_exists && !account_matches ==> r == Err::<(), ApiError>(ApiError::Conflict),
        !device_exists && account_matches ==> r is Ok,
{
    if device_exists {
        Err(ApiError::Replay)
    } else if !account_matches {
        Err(ApiError::Conflict)
    } else {
        Ok(())
    }
}

/// Whether a signature verifies under a stored public key, which must be 32 bytes.
pub open spec fn stored_key_accepts(public: Seq<u8>, message: Seq<u8>, signature: Seq<u8>) -> bool {
    public.len() == 32 && ed25519_accepts(public, message, signature)
}

fn stored_key_verifies(public: &Vec<u8>, message: &[u8], signature: &[u8; 64]) -> (r: bool)
    ensures
        r == stored_key_accepts(public@, message@, signature@),
{
    if public.len() != 32 {
        return false;
    }
    let key = crate::bytes::array32_at(public.as_slice(), 0);
    assert(key@ =~= public@);
    ed25519_verify(&key, message, signature)
}

/// What the service knows of a pending challenge: the device, the challenge bytes, the
/// device's public key, whether it expired and whether it was consumed.
pub type ChallengeRow = (Vec<u8>, Vec<u8>, Vec<u8>, bool, bool);

/// The verdict on answering a challenge: unknown challenges are refused, then consumed
/// ones are replays, expired ones expire, and the device must have signed the challenge.
pub open spec fn challenge_verdict(
    row: Option<(Seq<u8>, Seq<u8>, Seq<u8>, bool, bool)>,
    challenge_id: Seq<u8>,
    signature: Seq<u8>,
) -> Result<(), ApiError> {
    match row {
        None => Err(ApiError::InvalidCredentials),
        Some((_, challenge, public, expired, consumed)) => if consumed {
            Err(ApiError::Replay)
        } else if expired {
            Err(ApiError::Expired)
        } else if challenge.len() != 32 || !stored_key_accepts(
            public,
            AUTH_CHALLENGE_DOMAIN.spec_bytes() + challenge_id + challenge,
            signature,
        ) {
            Err(ApiError::InvalidCredentials)
        } else {
            Ok(())
        },
    }
}

/// The view of a challenge row.
pub open spec fn challenge_row_view(row: Option<ChallengeRow>) -> Option<
    (Seq<u8>, Seq<u8>, Seq<u8>, bool, bool),
> {
    match row {
        None => None,
        Some((d, c, p, e, u)) => Some((d@, c@, p@, e, u)),
    }
}

pub fn check_challenge_response(row: &Option<ChallengeRow>, challenge_id: &[u8; 16], signature: &[u8; 64]) -> (r:
    Result<(), ApiError>)
    ensures
        r == challenge_verdict(challenge_row_view(*row), challenge_id@, signature@),
{
    match row {
        None => Err(ApiError::InvalidCredentials),
        Some((_, challenge, public, expired, consumed)) => {
            if *consumed {
                return Err(ApiError::Replay);
            }
            if *expired {
                return Err(ApiError::Expired);
            }
            if public.len() != 32 || challenge.len() != 32 {
                return Err(ApiError::InvalidCredentials);
            }
            let c = crate::bytes::array32_at(challenge.as_slice(), 0);
            assert(c@ =~= challenge@);
            let payload = auth_challenge_payload(challenge_id, &c);
            if stored_key_verifies(public, payload.as_slice(), signature) {
                Ok(())
            } else {
                Err(ApiError::InvalidCredentials)
            }
        },
    }
}

/// What the service knows of a refresh token: its family, the device's public key, and
/// whether it was used, revoked or expired.
pub type RefreshRow = (Vec<u8>, Vec<u8>, bool, bool, bool);

/// The verdict on rotating a refresh token: unknown tokens are refused; a used or revoked
/// token is reuse (and the caller revokes its family); an expired one expires; the device
/// must have signed the token's proof.
pub open spec fn refresh_verdict(
    row: Option<(Seq<u8>, Seq<u8>, bool, bool, bool)>,
    refresh_token: Seq<u8>,
    signature: Seq<u8>,
) -> Result<(), ApiError> {
    match row {
        None => Err(ApiError::InvalidCredentials),
        Some((_, public, used, revoked, expired)) => if used || revoked {
            Err(ApiError::TokenReuse)
        } else if expired {
            Err(ApiError::Expired)
        } else if !stored_key_accepts(public, REFRESH_PROOF_DOMAIN.spec_bytes() + refresh_token, signature) {
            Err(ApiError::InvalidCredentials)
        } else {
            Ok(())
        },
    }
}

/// The view of a refresh row.
pub open spec fn refresh_row_view(row: Option<RefreshRow>) -> Option<(Seq<u8>, Seq<u8>, bool, bool, bool)> {
    match row {
        None => None,
        Some((f, p, u, r, e)) => Some((f@, p@, u, r, e)),
    }
}

pub fn check_refresh_rotation(row: &Option<RefreshRow>, refresh_token: &[u8; 32], signature: &[u8; 64]) -> (r:
    Result<(), ApiError>)
    ensures
        r == refresh_verdict(refresh_row_view(*row), refresh_token@, signature@),
{
    match row {
        None => Err(ApiError::InvalidCredentials),
        Some((_, public, used, revoked, expired)) => {
            if *used || *revoked {
                return Err(ApiError::TokenReuse);
            }
            if *expired {
                return Err(ApiError::Expired);
            }
            let payload = refresh_proof_payload(refresh_token);
            if stored_key_verifies(public, payload.as_slice(), signature) {
                Ok(())
            } else {
                Err(ApiError::InvalidCredentials)
            }
        },
    }
}

/// The ASCII bytes of the names nobody may claim: admin, support, security, resilient
/// and system.
pub open spec fn reserved_username(name: Seq<u8>) -> bool {
    ||| name == seq![97u8, 100, 109, 105, 110]
    ||| name == seq![115u8, 117, 112, 112, 111, 114, 116]
    ||| name == seq![115u8, 101, 99, 117, 114, 105, 116, 121]
    ||| name == seq![114u8, 101, 115, 105, 108, 105, 101, 110, 116]
    ||| name == seq![115u8, 121, 115, 116, 101, 109]
}

/// Whether a canonical name is reserved.
pub fn is_reserved_username(name: &str) -> (r: bool)
    ensures
        r == reserved_username(name.spec_bytes()),
{
    let b = name.as_bytes();
    let admin: [u8; 5] = [97u8, 100, 109, 105, 110];
    let support: [u8; 7] = [115u8, 117, 112, 112, 111, 114, 116];
    let security: [u8; 8] = [115u8, 101, 99, 117, 114, 105, 116, 121];
    let resilient: [u8; 9] = [114u8, 101, 115, 105, 108, 105, 101, 110, 116];
    let system: [u8; 6] = [115u8, 121, 115, 116, 101, 109];
    assert(admin@ =~= seq![97u8, 100, 109, 105, 110]);
    assert(support@ =~= seq![115u8, 117, 112, 112, 111, 114, 116]);
    assert(security@ =~= seq![115u8, 101, 99, 117, 114, 105, 116, 121]);
    assert(resilient@ =~= seq![114u8, 101, 115, 105, 108, 105, 101, 110, 116]);
    assert(system@ =~= seq![115u8, 121, 115, 116, 101, 109]);
    bytes_equal(b, &admin) || bytes_equal(b, &support) || bytes_equal(b, &security) || bytes_equal(
        b,
        &resilient,
    ) || bytes_equal(b, &system)
}

/// What claiming or changing to `requested` asks for: the canonical form of the name,
/// or invalid input for a name that has none or is reserved.
pub open spec fn username_request_spec(requested: Seq<char>) -> Result<Seq<char>, ApiError> {
    match canonical_username_spec(requested) {
        Err(_) => Err(ApiError::InvalidInput),
        Ok(name) => if reserved_username(encode_utf8(name)) {
            Err(ApiError::InvalidInput)
        } else {
            Ok(name)
        },
    }
}

pub fn username_request(requested: &str) -> (r: Result<String, ApiError>)
    ensures
        match username_request_spec(requested@) {
            Ok(name) => r matches Ok(s) && s@ == name,
            Err(e) => r matches Err(x) && x == e,
        },
{
    let canonical = match canonical_username(requested) {
        Ok(c) => c,
        Err(_) => {
            return Err(ApiError::InvalidInput);
        },
    };
    if is_reserved_username(canonical.as_str()) {
        return Err(ApiError::InvalidInput);
    }
    Ok(canonical)
}

/// The names no one may claim are exactly admin, support, security, resilient and
/// system: a request whose canonical form is one of them is refused as invalid input, and
/// any other name with a canonical form is granted as that form.
pub proof fn lemma_reserved_usernames(requested: Seq<char>, v: Seq<char>)
    requires
        canonical_username_spec(requested) == Ok::<Seq<char>, IdentityError>(v),
    ensures
        username_request_spec(requested) == (if v == seq!['a', 'd', 'm', 'i', 'n'] || v == seq![
            's',
            'u',
            'p',
            'p',
            'o',
            'r',
            't',
        ] || v == seq!['s', 'e', 'c', 'u', 'r', 'i', 't', 'y'] || v == seq![
            'r',
            'e',
            's',
            'i',
            'l',
            'i',
            'e',
            'n',
            't',
        ] || v == seq!['s', 'y', 's', 't', 'e', 'm'] {
            Err::<Seq<char>, ApiError>(ApiError::InvalidInput)
        } else {
            Ok::<Seq<char>, ApiError>(v)
        }),
{
    assert forall|i: int| 0 <= i < v.len() implies '\0' <= #[trigger] v[i] <= '\u{7f}' by {
        assert(username_char_allowed(v[i]));
    }
    assert(is_ascii_chars(v));
    is_ascii_chars_encode_utf8(v);
    let b = encode_utf8(v);
    assert forall|w: Seq<char>| #[trigger] is_ascii_chars(w) && w.len() == v.len() && (forall|i: int|
        0 <= i < w.len() ==> w[i] as u8 == b[i]) implies w == v by {
        assert forall|i: int| 0 <= i < w.len() implies w[i] == v[i] by {
            assert(w[i] as u8 == v[i] as u8);
            assert('\0' <= w[i] <= '\u{7f}' && '\0' <= v[i] <= '\u{7f}');
        }
        assert(w =~= v);
    }
    let admin = seq!['a', 'd', 'm', 'i', 'n'];
    let support = seq!['s', 'u', 'p', 'p', 'o', 'r', 't'];
    let security = seq!['s', 'e', 'c', 'u', 'r', 'i', 't', 'y'];
    let resilient = seq!['r', 'e', 's', 'i', 'l', 'i', 'e', 'n', 't'];
    let system = seq!['s', 'y', 's', 't', 'e', 'm'];
    assert(is_ascii_chars(admin) && is_ascii_chars(support) && is_ascii_chars(security) && is_ascii_chars(
        resilient,
    ) && is_ascii_chars(system));
    if b == seq![97u8, 100, 109, 105, 110] {
        assert(admin.len() == v.len() && forall|i: int| 0 <= i < admin.len() ==> admin[i] as u8 == b[i]);
    }
    if b == seq![115u8, 117, 112, 112, 111, 114, 116] {
        assert(support.len() == v.len() && forall|i: int| 0 <= i < support.len() ==> support[i] as u8 == b[i]);
    }
    if b == seq![115u8, 101, 99, 117, 114, 105, 116, 121] {
        assert(security.len() == v.len() && forall|i: int| 0 <= i < security.len() ==> security[i] as u8 == b[i]);
    }
    if b == seq![114u8, 101, 115, 105, 108, 105, 101, 110, 116] {
        assert(resilient.len() == v.len() && forall|i: int| 0 <= i < resilient.len() ==> resilient[i] as u8 == b[i]);
    }
    if b == seq![115u8, 121, 115, 116, 101, 109] {
        assert(system.len() == v.len() && forall|i: int| 0 <= i < system.len() ==> system[i] as u8 == b[i]);
    }
    if v == admin {
        assert(b =~= seq![97u8, 100, 109, 105, 110]);
    }
    if v == support {
        assert(b =~= seq![115u8, 117, 112, 112, 111, 114, 116]);
    }
    if v == security {
        assert(b =~= seq![115u8, 101, 99, 117, 114, 105, 116, 121]);
    }
    if v == resilient {
        assert(b =~= seq![114u8, 101, 115, 105, 108, 105, 101, 110, 116]);
    }
    if v == system {
        assert(b =~= seq![115u8, 121, 115, 116, 101, 109]);
    }
}

/// The canonical form of a name to look up, or invalid input.
pub fn username_lookup_key(requested: &str) -> (r: Result<String, ApiError>)
    ensures
        match canonical_username_spec(requested@) {
            Ok(name) => r matches Ok(s) && s@ == name,
            Err(_) => r == Err::<String, ApiError>(ApiError::InvalidInput),
        },
{
    match canonical_username(requested) {
        Ok(c) => Ok(c),
        Err(_) => Err(ApiError::InvalidInput),
    }
}

/// A membership operation grants role 0 (member), 1 or 2 (admin).
pub fn check_membership_role(role: i16) -> (r: Result<(), ApiError>)
    ensures
        r is Ok <==> 0 <= role <= 2,
        r is Err ==> r == Err::<(), ApiError>(ApiError::InvalidInput),
{
    if 0 <= role && role <= 2 {
        Ok(())
    } else {
        Err(ApiError::InvalidInput)
    }
}

/// The verdict on the author of a membership operation: an author that is no admin of
/// the group is unauthorized; a stored key of the wrong size is a database fault; the
/// signature must verify under the author's key.
pub open spec fn membership_author_verdict(author_key: Option<Seq<u8>>, operation: Seq<u8>, signature: Seq<u8>) -> Result<
    (),
    ApiError,
> {
    match author_key {
        None => Err(ApiError::Unauthorized),
        Some(public) => if public.len() != 32 {
            Err(ApiError::Database)
        } else if !ed25519_accepts(public, operation, signature) {
            Err(ApiError::InvalidCredentials)
        } else {
            Ok(())
        },
    }
}

/// The view of an optional byte vector.
pub open spec fn opt_bytes_view(v: Option<Vec<u8>>) -> Option<Seq<u8>> {
    match v {
        None => None,
        Some(b) => Some(b@),
    }
}

pub fn check_membership_author(author_key: &Option<Vec<u8>>, operation: &[u8], signature: &[u8; 64]) -> (r:
    Result<(), ApiError>)
    ensures
        r == membership_author_verdict(opt_bytes_view(*author_key), operation@, signature@),
{
    match author_key {
        None => Err(ApiError::Unauthorized),
        Some(public) => {
            if public.len() != 32 {
                return Err(ApiError::Database);
            }
            if stored_key_verifies(public, operation, signature) {
                Ok(())
            } else {
                Err(ApiError::InvalidCredentials)
            }
        },
    }
}

/// Whether an operation with this correlation ID was applied before: the same operation
/// with the same signature is a harmless replay (`true`); anything else under the same
/// ID is a conflict; no stored operation means it is new (`false`).
pub open spec fn membership_replay_verdict(
    stored: Option<(Seq<u8>, Seq<u8>)>,
    operation: Seq<u8>,
    signature: Seq<u8>,
) -> Result<bool, ApiError> {
    match stored {
        None => Ok(false),
        Some((op, sig)) => if op == operation && sig == signature {
            Ok(true)
        } else {
            Err(ApiError::Conflict)
        },
    }
}

pub fn membership_replay(stored: &Option<(Vec<u8>, Vec<u8>)>, operation: &[u8], signature: &[u8; 64]) -> (r:
    Result<bool, ApiError>)
    ensures
        r == membership_replay_verdict(
            match *stored {
                None => None,
                Some((o, s)) => Some((o@, s@)),
            },
            operation@,
            signature@,
        ),
{
    match stored {
        None => Ok(false),
        Some((op, sig)) => {
            if bytes_equal(op.as_slice(), operation) && bytes_equal(sig.as_slice(), signature) {
                Ok(true)
            } else {
                Err(ApiError::Conflict)
            }
        },
    }
}

/// A commit must name the membership operation that it carries out.
pub fn check_commit_correlation(event_kind: i16, correlation_id: &Option<[u8; 16]>) -> (r: Result<
    (),
    ApiError,
>)
    ensures
        r is Err <==> (event_kind == EVENT_KIND_MLS_COMMIT && correlation_id is None),
        r is Err ==> r == Err::<(), ApiError>(ApiError::InvalidInput),
{
    if event_kind == EVENT_KIND_MLS_COMMIT && correlation_id.is_none() {
        Err(ApiError::InvalidInput)
    } else {
        Ok(())
    }
}

/// The verdict on an upload whose client message ID the author used before: the same
/// event ID and ciphertext is a duplicate that reports the stored cursor; anything else
/// is a conflict. Without an earlier upload the event is new (`None`).
pub open spec fn duplicate_upload_verdict(
    existing: Option<(i64, Seq<u8>, Seq<u8>)>,
    event_id: Seq<u8>,
    ciphertext: Seq<u8>,
) -> Result<Option<UploadAccepted>, ApiError> {
    match existing {
        None => Ok(None),
        Some((cursor, id, stored)) => if id == event_id && stored == ciphertext {
            Ok(Some(UploadAccepted { cursor, duplicate: true }))
        } else {
            Err(ApiError::Conflict)
        },
    }
}

pub fn duplicate_upload(existing: &Option<(i64, Vec<u8>, Vec<u8>)>, event: &UploadedEvent) -> (r:
    Result<Option<UploadAccepted>, ApiError>)
    ensures
        r == duplicate_upload_verdict(
            match *existing {
                None => None,
                Some((c, i, s)) => Some((c, i@, s@)),
            },
            event.event_id@,
            event.ciphertext@,
        ),
{
    match existing {
        None => Ok(None),
        Some((cursor, id, stored)) => {
            if bytes_equal(id.as_slice(), &event.event_id) && bytes_equal(
                stored.as_slice(),
                event.ciphertext.as_slice(),
            ) {
                Ok(Some(UploadAccepted { cursor: *cursor, duplicate: true }))
            } else {
                Err(ApiError::Conflict)
            }
        },
    }
}

/// A device's read cursor never moves backwards.
pub fn check_cursor_regression(current: Option<i64>, cursor: i64) -> (r: Result<(), ApiError>)
    ensures
        r is Err <==> (current matches Some(c) && cursor < c),
        r is Err ==> r == Err::<(), ApiError>(ApiError::CursorRegression),
{
    match current {
        Some(c) => if cursor < c {
            Err(ApiError::CursorRegression)
        } else {
            Ok(())
        },
        None => Ok(()),
    }
}

/// A cursor may not pass the newest event of the group.
pub fn check_cursor_available(cursor: i64, available: i64) -> (r: Result<(), ApiError>)
    ensures
        r is Err <==> cursor > available,
        r is Err ==> r == Err::<(), ApiError>(ApiError::InvalidInput),
{
    if cursor > available {
        Err(ApiError::InvalidInput)
    } else {
        Ok(())
    }
}

/// The page bounds of a sync: events after `max(after, 0)`, at most `clamp(limit, 1, 50)`.
pub fn sync_bounds(after: i64, limit: i64) -> (r: (i64, i64))
    ensures
        r.0 == if after < 0 { 0 } else { after },
        r.1 == if limit < 1 { 1 } else if limit > MAX_SYNC_BATCH { MAX_SYNC_BATCH } else { limit },
{
    let a = if after < 0 { 0 } else { after };
    let l = if limit < 1 { 1 } else if limit > MAX_SYNC_BATCH { MAX_SYNC_BATCH } else { limit };
    (a, l)
}

/// The most expired events that one cleanup deletes.
pub const MAX_CLEANUP_BATCH: i64 = 10000;

/// The size of a cleanup batch: `clamp(batch, 1, 10000)`.
pub fn cleanup_batch(batch: i64) -> (r: i64)
    ensures
        r == if batch < 1 { 1 } else if batch > MAX_CLEANUP_BATCH { MAX_CLEANUP_BATCH } else { batch },
{
    if batch < 1 {
        1
    } else if batch > MAX_CLEANUP_BATCH {
        MAX_CLEANUP_BATCH
    } else {
        batch
    }
}

/// The checksum under which a schema migration is recorded: SHA-256 of its text.
pub fn migration_checksum(migration: &str) -> (r: [u8; 32])
    ensures
        r@ == sha256(migration.spec_bytes()),
{
    sha256_digest(migration.as_bytes())
}

/// Whether a migration is still to be applied, given the checksum recorded for its
/// version: none recorded, apply it; the same recorded, nothing to do; another recorded,
/// a different schema already holds that version, which is a conflict.
pub fn migration_verdict(recorded: &Option<Vec<u8>>, checksum: &[u8; 32]) -> (r: Result<bool, ApiError>)
    ensures
        match *recorded {
            None => r == Ok::<bool, ApiError>(true),
            Some(c) => if c@ == checksum@ {
                r == Ok::<bool, ApiError>(false)
            } else {
                r == Err::<bool, ApiError>(ApiError::Conflict)
            },
        },
{
    match recorded {
        None => Ok(true),
        Some(c) => {
            if bytes_equal(c.as_slice(), checksum) {
                Ok(false)
            } else {
                Err(ApiError::Conflict)
            }
        },
    }
}

/// A receipt batch is a delivery (1) or read (2) receipt for at most 50 events.
pub fn check_receipts(count: usize, receipt_type: i16) -> (r: Result<(), ApiError>)
    ensures
        r is Ok <==> ((receipt_type == 1 || receipt_type == 2) && count <= MAX_SYNC_BATCH),
        r is Err ==> r == Err::<(), ApiError>(ApiError::InvalidInput),
{
    if !(receipt_type == 1 || receipt_type == 2) || count > 50 {
        Err(ApiError::InvalidInput)
    } else {
        Ok(())
    }
}

/// A stored ID of exactly 16 bytes; a row without one is refused with `missing`, and a
/// stored value of another size is a database fault.
pub fn stored_id16(value: Option<Vec<u8>>, missing: ApiError) -> (r: Result<[u8; 16], ApiError>)
    ensures
        match value {
            None => r == Err::<[u8; 16], ApiError>(missing),
            Some(v) => if v@.len() == 16 {
                r matches Ok(a) && a@ == v@
            } else {
                r == Err::<[u8; 16], ApiError>(ApiError::Database)
            },
        },
{
    match value {
        None => Err(missing),
        Some(v) => {
            if v.len() != 16 {
                return Err(ApiError::Database);
            }
            let a = crate::bytes::array16_at(v.as_slice(), 0);
            assert(a@ =~= v@);
            Ok(a)
        },
    }
}

/// A stored 32-byte value; a row without one is refused with `missing`, and a stored
/// value of another size is a database fault.
pub fn stored_id32(value: Option<Vec<u8>>, missing: ApiError) -> (r: Result<[u8; 32], ApiError>)
    ensures
        match value {
            None => r == Err::<[u8; 32], ApiError>(missing),
            Some(v) => if v@.len() == 32 {
                r matches Ok(a) && a@ == v@
            } else {
                r == Err::<[u8; 32], ApiError>(ApiError::Database)
            },
        },
{
    match value {
        None => Err(missing),
        Some(v) => {
            if v.len() != 32 {
                return Err(ApiError::Database);
            }
            let a = crate::bytes::array32_at(v.as_slice(), 0);
            assert(a@ =~= v@);
            Ok(a)
        },
    }
}

} // verus!
