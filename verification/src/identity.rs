//! Client-owned anonymous identity. Root secrets and recovery phrases never leave this module.
use crate::bytes::{
    array16_at, array32_at, array64_at, be64, be64_value, bytes_equal, copy_range, push_be64,
    push_bytes, read_be64, lemma_be64_round_trip,
};
use crate::primitives::{
    ascii_upper, bip39_entropy, bip39_generate_24, bip39_parse, bip39_phrase, bip39_words,
    char_lowercase,
    ed25519_accepts, ed25519_public, ed25519_public_key, ed25519_sign, ed25519_signature,
    ed25519_verify, hkdf_sha256_32, hkdf_sha256_expand32, lowercase_chars, nfkc, nfkc_chars,
    random_bytes, sha256, sha256_digest, string_from_chars, unix_time, AEAD_MESSAGE_LIMIT,
};
use crate::sealed::{open_blob, open_blob_spec, seal_with_fresh_nonce, seals};
use vstd::prelude::*;
use vstd::string::StringSliceAdditionalSpecFns;

verus! {

pub const ACCOUNT_ID_DOMAIN: &'static str = "resilient/account-id/v1";

pub const DEVICE_FINGERPRINT_DOMAIN: &'static str = "resilient/device-certificate-fingerprint/v1";

pub const AUTH_CHALLENGE_DOMAIN: &'static str = "resilient/auth-challenge/v1";

pub const REFRESH_PROOF_DOMAIN: &'static str = "resilient/refresh-proof/v1";

pub const RECOVERY_ID_DOMAIN: &'static str = "resilient/recovery-id/v1";

pub const RECOVERY_SALT: &'static str = "resilient/recovery/salt/v1";

pub const RECOVERY_INFO: &'static str = "recovery-blob";

#[derive(Clone, Copy, Debug, PartialEq, Eq, Structural)]
pub enum IdentityError {
    InvalidInput,
    CryptographicFailure,
}

impl IdentityError {
    /// The message that describes the error.
    pub fn message(&self) -> (r: &'static str)
        ensures
            r@ == (match *self {
                IdentityError::InvalidInput => "identity input is invalid"@,
                IdentityError::CryptographicFailure => "identity cryptographic operation failed"@,
            }),
    {
        match self {
            IdentityError::InvalidInput => "identity input is invalid",
            IdentityError::CryptographicFailure => "identity cryptographic operation failed",
        }
    }
}

/// The account root signing key, held as its 32 secret bytes.
#[derive(Clone)]
pub struct AccountRoot(pub [u8; 32]);

/// A device signing key, held as its 32 secret bytes.
#[derive(Clone)]
pub struct DeviceKey(pub [u8; 32]);

#[derive(Clone, Debug)]
pub struct DeviceCertificate {
    pub device_id: [u8; 16],
    pub device_public_key: [u8; 32],
    pub issued_at: u64,
    pub signature: [u8; 64],
}

#[derive(Clone, Debug)]
pub struct SignedInvite {
    pub version: u8,
    pub account_id: [u8; 32],
    pub fingerprint: [u8; 16],
    pub expires_at: Option<u64>,
    pub signature: [u8; 64],
}

/// The mathematical value of an invite.
pub struct InviteView {
    pub version: u8,
    pub account_id: Seq<u8>,
    pub fingerprint: Seq<u8>,
    pub expires_at: Option<u64>,
    pub signature: Seq<u8>,
}

impl View for SignedInvite {
    type V = InviteView;

    open spec fn view(&self) -> InviteView {
        InviteView {
            version: self.version,
            account_id: self.account_id@,
            fingerprint: self.fingerprint@,
            expires_at: self.expires_at,
            signature: self.signature@,
        }
    }
}

/// A BIP-39 recovery phrase, held as the entropy that its English words encode.
pub struct RecoveryPhrase {
    entropy: Vec<u8>,
}

impl RecoveryPhrase {
    #[verifier::type_invariant]
    spec fn entropy_has_phrase_length(self) -> bool {
        16 <= self.entropy@.len() <= 32 && self.entropy@.len() % 4 == 0
    }

    /// The phrase's English words, separated by single spaces.
    pub fn to_words(&self) -> (r: String)
        ensures
            r@ == bip39_phrase(self@),
            bip39_entropy(r@) == Some(self@),
    {
        proof {
            use_type_invariant(self);
        }
        bip39_words(self.entropy.as_slice())
    }

    /// The entropy that the phrase encodes.
    pub fn entropy(&self) -> (r: &[u8])
        ensures
            r@ == self@,
    {
        self.entropy.as_slice()
    }
}

impl View for RecoveryPhrase {
    type V = Seq<u8>;

    closed spec fn view(&self) -> Seq<u8> {
        self.entropy@
    }
}

pub struct RecoveryPackage {
    pub phrase: RecoveryPhrase,
    pub recovery_identifier: [u8; 32],
    pub encrypted_root: Vec<u8>,
}

// ---------------------------------------------------------------------------
// Identifiers and payloads
// ---------------------------------------------------------------------------
/// The account ID: SHA-256 over the domain separator and the root public key.
pub open spec fn account_id_spec(root_public: Seq<u8>) -> Seq<u8> {
    sha256(ACCOUNT_ID_DOMAIN.spec_bytes() + root_public)
}

/// The bytes that a root key signs for a device certificate.
pub open spec fn certificate_payload(cert: DeviceCertificate) -> Seq<u8> {
    cert.device_id@ + cert.device_public_key@ + be64(cert.issued_at)
}

/// A certificate verifies under a root public key.
pub open spec fn certificate_verifies(root_public: Seq<u8>, cert: DeviceCertificate) -> bool {
    ed25519_accepts(root_public, certificate_payload(cert), cert.signature@)
}

/// The fingerprint of a certificate: the first 16 bytes of a domain-separated SHA-256.
pub open spec fn certificate_fingerprint(cert: DeviceCertificate) -> Seq<u8> {
    sha256(DEVICE_FINGERPRINT_DOMAIN.spec_bytes() + certificate_payload(cert) + cert.signature@).subrange(
        0,
        16,
    )
}

/// The bytes that an invite's root signature covers.
pub open spec fn invite_payload(invite: InviteView) -> Seq<u8> {
    seq![invite.version] + invite.account_id + invite.fingerprint + be64(
        match invite.expires_at {
            Some(x) => x,
            None => 0,
        },
    )
}

/// An invite is valid at time `at` under a root public key: version 1, not expired
/// before `at`, and root-signed.
pub open spec fn invite_verifies(root_public: Seq<u8>, invite: InviteView, at: u64) -> bool {
    &&& invite.version == 1
    &&& !(invite.expires_at matches Some(x) && x < at)
    &&& ed25519_accepts(root_public, invite_payload(invite), invite.signature)
}

/// The invite that a root signs for an optional expiry.
pub open spec fn signed_invite_spec(root_secret: Seq<u8>, expires_at: Option<u64>) -> InviteView {
    let public = ed25519_public_key(root_secret);
    let unsigned = InviteView {
        version: 1,
        account_id: account_id_spec(public),
        fingerprint: public.subrange(0, 16),
        expires_at,
        signature: Seq::empty(),
    };
    InviteView { signature: ed25519_signature(root_secret, invite_payload(unsigned)), ..unsigned }
}

pub fn account_id_from_root_public(root_public: &[u8; 32]) -> (r: [u8; 32])
    ensures
        r@ == account_id_spec(root_public@),
{
    let mut data: Vec<u8> = Vec::new();
    push_bytes(&mut data, ACCOUNT_ID_DOMAIN.as_bytes());
    push_bytes(&mut data, root_public);
    sha256_digest(data.as_slice())
}

pub fn account_id(root: &AccountRoot) -> (r: [u8; 32])
    ensures
        r@ == account_id_spec(ed25519_public_key(root.0@)),
{
    account_id_from_root_public(&ed25519_public(&root.0))
}

impl AccountRoot {
    /// The root's public key.
    pub fn public_key(&self) -> (r: [u8; 32])
        ensures
            r@ == ed25519_public_key(self.0@),
    {
        ed25519_public(&self.0)
    }
}

impl DeviceKey {
    /// The device's public key.
    pub fn public_key(&self) -> (r: [u8; 32])
        ensures
            r@ == ed25519_public_key(self.0@),
    {
        ed25519_public(&self.0)
    }
}

pub fn device_certificate_signing_payload(cert: &DeviceCertificate) -> (r: Vec<u8>)
    ensures
        r@ == certificate_payload(*cert),
{
    let mut value: Vec<u8> = Vec::new();
    push_bytes(&mut value, &cert.device_id);
    push_bytes(&mut value, &cert.device_public_key);
    push_be64(&mut value, cert.issued_at);
    value
}

pub fn auth_challenge_payload(challenge_id: &[u8; 16], challenge: &[u8; 32]) -> (r: Vec<u8>)
    ensures
        r@ == AUTH_CHALLENGE_DOMAIN.spec_bytes() + challenge_id@ + challenge@,
{
    let mut value: Vec<u8> = Vec::new();
    push_bytes(&mut value, AUTH_CHALLENGE_DOMAIN.as_bytes());
    push_bytes(&mut value, challenge_id);
    push_bytes(&mut value, challenge);
    value
}

pub fn refresh_proof_payload(refresh_token: &[u8; 32]) -> (r: Vec<u8>)
    ensures
        r@ == REFRESH_PROOF_DOMAIN.spec_bytes() + refresh_token@,
{
    let mut value: Vec<u8> = Vec::new();
    push_bytes(&mut value, REFRESH_PROOF_DOMAIN.as_bytes());
    push_bytes(&mut value, refresh_token);
    value
}

// ---------------------------------------------------------------------------
// Accounts and device certificates
// ---------------------------------------------------------------------------
/// Generates a root key and a device key, and certifies the device under the root.
pub fn create_account() -> (r: (AccountRoot, DeviceKey, DeviceCertificate))
    ensures
        r.2.device_public_key@ == ed25519_public_key(r.1.0@),
        r.2.signature@ == ed25519_signature(r.0.0@, certificate_payload(r.2)),
        certificate_verifies(ed25519_public_key(r.0.0@), r.2),
{
    let root_bytes = random_bytes(32);
    let device_bytes = random_bytes(32);
    let root = AccountRoot(array32_at(root_bytes.as_slice(), 0));
    let device = DeviceKey(array32_at(device_bytes.as_slice(), 0));
    let cert = sign_device_certificate(&root, &device);
    (root, device, cert)
}

/// Certifies a device key under the root, with a fresh random device ID and the
/// current time. The certificate verifies under the root's public key.
pub fn sign_device_certificate(root: &AccountRoot, device: &DeviceKey) -> (cert: DeviceCertificate)
    ensures
        cert.device_public_key@ == ed25519_public_key(device.0@),
        cert.signature@ == ed25519_signature(root.0@, certificate_payload(cert)),
        certificate_verifies(ed25519_public_key(root.0@), cert),
{
    let id_bytes = random_bytes(16);
    let issued = unix_time();
    let mut cert = DeviceCertificate {
        device_id: array16_at(id_bytes.as_slice(), 0),
        device_public_key: ed25519_public(&device.0),
        issued_at: issued,
        signature: [0u8; 64],
    };
    let payload = device_certificate_signing_payload(&cert);
    cert.signature = ed25519_sign(&root.0, payload.as_slice());
    cert
}

pub fn verify_device_certificate(root_public: &[u8; 32], cert: &DeviceCertificate) -> (r: bool)
    ensures
        r == certificate_verifies(root_public@, *cert),
{
    let payload = device_certificate_signing_payload(cert);
    ed25519_verify(root_public, payload.as_slice(), &cert.signature)
}

pub fn device_certificate_fingerprint(cert: &DeviceCertificate) -> (r: [u8; 16])
    ensures
        r@ == certificate_fingerprint(*cert),
{
    let mut data: Vec<u8> = Vec::new();
    push_bytes(&mut data, DEVICE_FINGERPRINT_DOMAIN.as_bytes());
    let payload = device_certificate_signing_payload(cert);
    push_bytes(&mut data, payload.as_slice());
    push_bytes(&mut data, &cert.signature);
    let digest = sha256_digest(data.as_slice());
    array16_at(&digest, 0)
}

// ---------------------------------------------------------------------------
// Recovery
// ---------------------------------------------------------------------------
/// The key that protects a recovery blob, derived from the phrase's entropy.
pub open spec fn recovery_key(entropy: Seq<u8>) -> Seq<u8> {
    hkdf_sha256_32(RECOVERY_SALT.spec_bytes(), entropy, RECOVERY_INFO.spec_bytes())
}

/// The one-way recovery identifier of a phrase.
pub open spec fn recovery_identifier_spec(entropy: Seq<u8>) -> Seq<u8> {
    sha256(RECOVERY_ID_DOMAIN.spec_bytes() + entropy)
}

/// What decrypting a recovery blob gives.
pub open spec fn decrypt_recovery_spec(entropy: Seq<u8>, blob: Seq<u8>) -> Result<
    Seq<u8>,
    IdentityError,
> {
    if blob.len() < 24 {
        Err(IdentityError::InvalidInput)
    } else {
        match open_blob_spec(recovery_key(entropy), Seq::empty(), blob) {
            Some(p) => Ok(p),
            None => Err(IdentityError::CryptographicFailure),
        }
    }
}

/// What restoring an account root from a phrase and a recovery blob gives: the root's
/// secret bytes.
pub open spec fn restore_spec(phrase: Seq<char>, blob: Seq<u8>) -> Result<Seq<u8>, IdentityError> {
    match bip39_entropy(phrase) {
        None => Err(IdentityError::InvalidInput),
        Some(entropy) => match decrypt_recovery_spec(entropy, blob) {
            Err(e) => Err(e),
            Ok(secret) => if secret.len() == 32 {
                Ok(secret)
            } else {
                Err(IdentityError::InvalidInput)
            },
        },
    }
}

/// Generates a fresh 24-word phrase.
pub fn generate_recovery_phrase() -> (r: RecoveryPhrase)
    ensures
        r@.len() == 32,
{
    RecoveryPhrase { entropy: bip39_generate_24() }
}

fn recovery_key_of(entropy: &[u8]) -> (r: [u8; 32])
    ensures
        r@ == recovery_key(entropy@),
{
    hkdf_sha256_expand32(RECOVERY_SALT.as_bytes(), entropy, RECOVERY_INFO.as_bytes())
}

pub fn recovery_identifier(phrase: &RecoveryPhrase) -> (r: [u8; 32])
    ensures
        r@ == recovery_identifier_spec(phrase@),
{
    let mut data: Vec<u8> = Vec::new();
    push_bytes(&mut data, RECOVERY_ID_DOMAIN.as_bytes());
    push_bytes(&mut data, phrase.entropy());
    sha256_digest(data.as_slice())
}

/// Encrypts `plaintext` under the phrase's recovery key with a fresh nonce. The blob
/// decrypts back to the plaintext under the same phrase.
pub fn encrypt_recovery_blob(phrase: &RecoveryPhrase, plaintext: &[u8]) -> (r: Result<
    Vec<u8>,
    IdentityError,
>)
    ensures
        plaintext@.len() < AEAD_MESSAGE_LIMIT <==> r is Ok,
        r matches Err(e) ==> e == IdentityError::CryptographicFailure,
        r matches Ok(b) ==> seals(recovery_key(phrase@), Seq::empty(), plaintext@, b@),
        r matches Ok(b) ==> decrypt_recovery_spec(phrase@, b@) == Ok::<Seq<u8>, IdentityError>(
            plaintext@,
        ),
{
    let key = recovery_key_of(phrase.entropy());
    let no_aad: Vec<u8> = Vec::new();
    match seal_with_fresh_nonce(&key, no_aad.as_slice(), plaintext) {
        Some(blob) => {
            assert(no_aad@ =~= Seq::<u8>::empty());
            Ok(blob)
        },
        None => Err(IdentityError::CryptographicFailure),
    }
}

pub fn decrypt_recovery_blob(phrase: &RecoveryPhrase, blob: &[u8]) -> (r: Result<
    Vec<u8>,
    IdentityError,
>)
    ensures
        match decrypt_recovery_spec(phrase@, blob@) {
            Ok(p) => r matches Ok(v) && v@ == p,
            Err(e) => r matches Err(x) && x == e,
        },
{
    if blob.len() < 24 {
        return Err(IdentityError::InvalidInput);
    }
    let key = recovery_key_of(phrase.entropy());
    let no_aad: Vec<u8> = Vec::new();
    assert(no_aad@ =~= Seq::<u8>::empty());
    match open_blob(&key, no_aad.as_slice(), blob) {
        Some(p) => Ok(p),
        None => Err(IdentityError::CryptographicFailure),
    }
}

/// Makes a fresh phrase and a recovery package that holds the root's secret encrypted
/// under it. Restoring from the package's phrase and blob gives the root back.
pub fn create_recovery_package(root: &AccountRoot) -> (r: Result<RecoveryPackage, IdentityError>)
    ensures
        r is Ok,
        r matches Ok(p) ==> p.recovery_identifier@ == recovery_identifier_spec(p.phrase@),
        r matches Ok(p) ==> seals(recovery_key(p.phrase@), Seq::empty(), root.0@, p.encrypted_root@),
        r matches Ok(p) ==> decrypt_recovery_spec(p.phrase@, p.encrypted_root@) == Ok::<
            Seq<u8>,
            IdentityError,
        >(root.0@),
{
    let phrase = generate_recovery_phrase();
    let encrypted_root = encrypt_recovery_blob(&phrase, &root.0)?;
    let recovery_identifier = recovery_identifier(&phrase);
    Ok(RecoveryPackage { recovery_identifier, phrase, encrypted_root })
}

/// Parses a phrase and decrypts the root's secret from the recovery blob.
pub fn restore_account_root(phrase: &str, encrypted_root: &[u8]) -> (r: Result<
    AccountRoot,
    IdentityError,
>)
    ensures
        match restore_spec(phrase@, encrypted_root@) {
            Ok(secret) => r matches Ok(root) && root.0@ == secret,
            Err(e) => r matches Err(x) && x == e,
        },
{
    let entropy = match bip39_parse(phrase) {
        Some(e) => e,
        None => return Err(IdentityError::InvalidInput),
    };
    let parsed = RecoveryPhrase { entropy };
    let bytes = decrypt_recovery_blob(&parsed, encrypted_root)?;
    if bytes.len() != 32 {
        return Err(IdentityError::InvalidInput);
    }
    Ok(AccountRoot(array32_at(bytes.as_slice(), 0)))
}

/// Restoring from the words of a phrase and a blob that seals a 32-byte root under that
/// phrase gives the root back.
pub proof fn lemma_restore_round_trip(words: Seq<char>, entropy: Seq<u8>, secret: Seq<u8>, blob: Seq<u8>)
    requires
        bip39_entropy(words) == Some(entropy),
        secret.len() == 32,
        decrypt_recovery_spec(entropy, blob) == Ok::<Seq<u8>, IdentityError>(secret),
    ensures
        restore_spec(words, blob) == Ok::<Seq<u8>, IdentityError>(secret),
{
}

// ---------------------------------------------------------------------------
// Usernames
// ---------------------------------------------------------------------------
/// The lower-case mapping of every character, in order.
pub open spec fn lowercase_all(s: Seq<char>) -> Seq<char>
    decreases s.len(),
{
    if s.len() == 0 {
        Seq::empty()
    } else {
        lowercase_all(s.drop_last()) + char_lowercase(s.last())
    }
}

/// A character that a username may hold: ASCII letters and digits, `_` and `.`.
pub open spec fn username_char_allowed(c: char) -> bool {
    ('a' <= c && c <= 'z') || ('A' <= c && c <= 'Z') || ('0' <= c && c <= '9') || c == '_' || c
        == '.'
}

/// Every character of `v` may stand in a username.
pub open spec fn all_username_chars(v: Seq<char>) -> bool {
    forall|i: int| 0 <= i < v.len() ==> username_char_allowed(#[trigger] v[i])
}

/// The canonical form of a username: NFKC, then lower case; 3 to 32 allowed characters.
pub open spec fn canonical_username_spec(input: Seq<char>) -> Result<Seq<char>, IdentityError> {
    let v = lowercase_all(nfkc(input));
    if 3 <= v.len() <= 32 && all_username_chars(v) {
        Ok(v)
    } else {
        Err(IdentityError::InvalidInput)
    }
}

/// A character of a canonical username: a lower-case ASCII letter, a digit, `_` or `.`.
pub open spec fn canonical_char(c: char) -> bool {
    ('a' <= c && c <= 'z') || ('0' <= c && c <= '9') || c == '_' || c == '.'
}

/// A canonical username: 3 to 32 characters, each a lower-case ASCII letter, a digit,
/// `_` or `.`.
pub open spec fn is_canonical_username(v: Seq<char>) -> bool {
    3 <= v.len() <= 32 && forall|i: int| 0 <= i < v.len() ==> canonical_char(#[trigger] v[i])
}

fn char_allowed(c: char) -> (r: bool)
    ensures
        r == username_char_allowed(c),
{
    ('a' <= c && c <= 'z') || ('A' <= c && c <= 'Z') || ('0' <= c && c <= '9') || c == '_' || c
        == '.'
}

/// The canonical form of a username. Canonical names are fixed points: every name this
/// returns is canonical (`is_canonical_username`), and a canonical name comes back
/// unchanged, so case variants such as "ALICE_01" and "alice_01" denote one alias.
pub fn canonical_username(input: &str) -> (r: Result<String, IdentityError>)
    ensures
        match canonical_username_spec(input@) {
            Ok(v) => r matches Ok(s) && s@ == v,
            Err(e) => r matches Err(x) && x == e,
        },
        is_canonical_username(input@) ==> (r matches Ok(s) && s@ == input@),
        r matches Ok(s) ==> is_canonical_username(s@),
{
    let normalized = nfkc_chars(input);
    proof {
        if is_canonical_username(input@) {
            assert forall|m: int| 0 <= m < input@.len() implies (input@[m] as u32) < 128 by {
                assert(canonical_char(input@[m]));
            }
        }
    }
    let mut lowered: Vec<char> = Vec::new();
    let mut i: usize = 0;
    while i < normalized.len()
        invariant
            0 <= i <= normalized@.len(),
            lowered@ == lowercase_all(normalized@.subrange(0, i as int)),
            is_canonical_username(input@) ==> normalized@ == input@ && lowered@ == input@.subrange(0, i as int),
            forall|m: int| 0 <= m < lowered@.len() ==> !ascii_upper(#[trigger] lowered@[m]),
        decreases normalized@.len() - i,
    {
        let mapped = lowercase_chars(normalized[i]);
        proof {
            if is_canonical_username(input@) {
                assert(canonical_char(input@[i as int]));
            }
        }
        let mut j: usize = 0;
        let ghost before = lowered@;
        while j < mapped.len()
            invariant
                0 <= j <= mapped@.len(),
                lowered@ == before + mapped@.subrange(0, j as int),
                forall|m: int| 0 <= m < mapped@.len() ==> !ascii_upper(#[trigger] mapped@[m]),
                forall|m: int| 0 <= m < lowered@.len() ==> !ascii_upper(#[trigger] lowered@[m]),
            decreases mapped@.len() - j,
        {
            lowered.push(mapped[j]);
            j = j + 1;
            assert(mapped@.subrange(0, j as int) == mapped@.subrange(0, j - 1) + seq![
                mapped@[j - 1],
            ]);
        }
        assert(mapped@.subrange(0, mapped@.len() as int) == mapped@);
        assert(normalized@.subrange(0, i + 1).drop_last() == normalized@.subrange(0, i as int));
        proof {
            if is_canonical_username(input@) {
                assert(input@.subrange(0, i + 1) == input@.subrange(0, i as int) + seq![input@[i as int]]);
            }
        }
        i = i + 1;
    }
    assert(normalized@.subrange(0, normalized@.len() as int) == normalized@);
    let ghost v = lowercase_all(nfkc(input@));
    assert(v == lowered@);
    if lowered.len() < 3 || lowered.len() > 32 {
        return Err(IdentityError::InvalidInput);
    }
    let mut k: usize = 0;
    while k < lowered.len()
        invariant
            0 <= k <= lowered@.len(),
            v == lowered@,
            v == lowercase_all(nfkc(input@)),
            is_canonical_username(input@) ==> lowered@ == input@,
            forall|m: int| 0 <= m < k ==> username_char_allowed(lowered@[m]),
            forall|m: int| 0 <= m < lowered@.len() ==> !ascii_upper(#[trigger] lowered@[m]),
        decreases lowered@.len() - k,
    {
        proof {
            if is_canonical_username(input@) {
                assert(canonical_char(input@[k as int]));
            }
        }
        if !char_allowed(lowered[k]) {
            assert(!username_char_allowed(v[k as int]));
            return Err(IdentityError::InvalidInput);
        }
        k = k + 1;
    }
    Ok(string_from_chars(lowered.as_slice()))
}

// ---------------------------------------------------------------------------
// Invites and QR payloads
// ---------------------------------------------------------------------------
fn invite_signing_payload(invite: &SignedInvite) -> (r: Vec<u8>)
    ensures
        r@ == invite_payload(invite@),
{
    let mut v: Vec<u8> = Vec::new();
    v.push(invite.version);
    push_bytes(&mut v, &invite.account_id);
    push_bytes(&mut v, &invite.fingerprint);
    let expiry = match invite.expires_at {
        Some(x) => x,
        None => 0,
    };
    push_be64(&mut v, expiry);
    assert(v@ =~= invite_payload(invite@));
    v
}

/// Signs an invite for the root's account, valid until `expires_at` when one is given.
/// The invite verifies under the root's public key at every time not past its expiry.
pub fn sign_invite(root: &AccountRoot, expires_at: Option<u64>) -> (r: SignedInvite)
    ensures
        r@ == signed_invite_spec(root.0@, expires_at),
        forall|at: u64|
            !(expires_at matches Some(x) && x < at) ==> #[trigger] invite_verifies(
                ed25519_public_key(root.0@),
                r@,
                at,
            ),
{
    let public = ed25519_public(&root.0);
    let id = account_id_from_root_public(&public);
    let fp = array16_at(&public, 0);
    let mut invite = SignedInvite {
        version: 1,
        account_id: id,
        fingerprint: fp,
        expires_at,
        signature: [0u8; 64],
    };
    let payload = invite_signing_payload(&invite);
    invite.signature = ed25519_sign(&root.0, payload.as_slice());
    assert(invite_payload(invite@) == payload@);
    invite
}

pub fn verify_invite(root_public: &[u8; 32], invite: &SignedInvite, at: u64) -> (r: bool)
    ensures
        r == invite_verifies(root_public@, invite@, at),
{
    if invite.version != 1 {
        return false;
    }
    match invite.expires_at {
        Some(x) => {
            if x < at {
                return false;
            }
        },
        None => {},
    }
    let payload = invite_signing_payload(invite);
    ed25519_verify(root_public, payload.as_slice(), &invite.signature)
}

/// The four magic bytes of a QR payload: "RMQ1".
pub open spec fn qr_magic() -> Seq<u8> {
    seq![82u8, 77u8, 81u8, 49u8]
}

/// The QR payload of an invite: magic, root public key, version, account ID,
/// fingerprint, expiry flag, expiry (0 when absent) and signature; 158 bytes in all.
pub open spec fn qr_bytes(root_public: Seq<u8>, invite: InviteView) -> Seq<u8> {
    qr_magic() + root_public + seq![invite.version] + invite.account_id + invite.fingerprint
        + seq![if invite.expires_at is Some { 1u8 } else { 0u8 }] + be64(
        match invite.expires_at {
            Some(x) => x,
            None => 0,
        },
    ) + invite.signature
}

/// The invite that a QR payload of the right length holds.
pub open spec fn qr_invite(value: Seq<u8>) -> InviteView {
    InviteView {
        version: value[36],
        account_id: value.subrange(37, 69),
        fingerprint: value.subrange(69, 85),
        expires_at: if value[85] == 1 {
            Some(be64_value(value.subrange(86, 94)))
        } else {
            None
        },
        signature: value.subrange(94, 158),
    }
}

/// What decoding and verifying a QR payload at time `at` gives: the root public key
/// and the invite, when the payload is well formed, verifies and names the account of
/// that key.
pub open spec fn decode_qr_spec(value: Seq<u8>, at: u64) -> Result<
    (Seq<u8>, InviteView),
    IdentityError,
> {
    if value.len() != 158 || value.subrange(0, 4) != qr_magic() || value[85] > 1 {
        Err(IdentityError::InvalidInput)
    } else {
        let root_public = value.subrange(4, 36);
        let invite = qr_invite(value);
        if invite_verifies(root_public, invite, at) && account_id_spec(root_public)
            == invite.account_id {
            Ok((root_public, invite))
        } else {
            Err(IdentityError::InvalidInput)
        }
    }
}

fn qr_magic_bytes() -> (r: Vec<u8>)
    ensures
        r@ == qr_magic(),
{
    let v: Vec<u8> = vec![82u8, 77u8, 81u8, 49u8];
    assert(v@ =~= qr_magic());
    v
}

/// Encodes a QR payload for an invite of the root's account that verifies under the
/// root's key (ignoring expiry).
pub fn encode_qr_payload(root: &AccountRoot, invite: &SignedInvite) -> (r: Result<
    Vec<u8>,
    IdentityError,
>)
    ensures
        ({
            let public = ed25519_public_key(root.0@);
            if invite_verifies(public, invite@, 0) && account_id_spec(public) == invite.account_id@ {
                r matches Ok(v) && v@ == qr_bytes(public, invite@)
            } else {
                r matches Err(e) && e == IdentityError::InvalidInput
            }
        }),
{
    let public = ed25519_public(&root.0);
    let id = account_id(root);
    if !verify_invite(&public, invite, 0) || !bytes_equal(&id, &invite.account_id) {
        return Err(IdentityError::InvalidInput);
    }
    let mut value = qr_magic_bytes();
    push_bytes(&mut value, &public);
    value.push(invite.version);
    push_bytes(&mut value, &invite.account_id);
    push_bytes(&mut value, &invite.fingerprint);
    let (flag, expiry): (u8, u64) = match invite.expires_at {
        Some(x) => (1, x),
        None => (0, 0),
    };
    value.push(flag);
    push_be64(&mut value, expiry);
    push_bytes(&mut value, &invite.signature);
    assert(value@ =~= qr_bytes(public@, invite@));
    Ok(value)
}

pub fn decode_and_verify_qr_payload(value: &[u8], at: u64) -> (r: Result<
    ([u8; 32], SignedInvite),
    IdentityError,
>)
    ensures
        match decode_qr_spec(value@, at) {
            Ok((root_public, invite)) => r matches Ok(x) && x.0@ == root_public && x.1@ == invite,
            Err(e) => r matches Err(x) && x == e,
        },
{
    if value.len() != 158 {
        return Err(IdentityError::InvalidInput);
    }
    let magic = qr_magic_bytes();
    let head = copy_range(value, 0, 4);
    if !bytes_equal(head.as_slice(), magic.as_slice()) {
        return Err(IdentityError::InvalidInput);
    }
    let root_public = array32_at(value, 4);
    let has_expiry = value[85];
    if has_expiry > 1 {
        return Err(IdentityError::InvalidInput);
    }
    let expiry = read_be64(value, 86);
    let invite = SignedInvite {
        version: value[36],
        account_id: array32_at(value, 37),
        fingerprint: array16_at(value, 69),
        expires_at: if has_expiry == 1 {
            Some(expiry)
        } else {
            None
        },
        signature: array64_at(value, 94),
    };
    assert(invite@ == qr_invite(value@));
    if verify_invite(&root_public, &invite, at) && bytes_equal(
        &account_id_from_root_public(&root_public),
        &invite.account_id,
    ) {
        Ok((root_public, invite))
    } else {
        Err(IdentityError::InvalidInput)
    }
}

/// A QR payload of an invite that verifies at time `at` and names its root's account
/// decodes at `at` to that root key and invite.
pub proof fn lemma_qr_round_trip(root_public: Seq<u8>, invite: InviteView, at: u64)
    requires
        root_public.len() == 32,
        invite.account_id.len() == 32,
        invite.fingerprint.len() == 16,
        invite.signature.len() == 64,
        invite_verifies(root_public, invite, at),
        account_id_spec(root_public) == invite.account_id,
    ensures
        decode_qr_spec(qr_bytes(root_public, invite), at) == Ok::<
            (Seq<u8>, InviteView),
            IdentityError,
        >((root_public, invite)),
{
    let v = qr_bytes(root_public, invite);
    let expiry = match invite.expires_at {
        Some(x) => x,
        None => 0,
    };
    assert(v.subrange(0, 4) =~= qr_magic());
    assert(v.subrange(4, 36) =~= root_public);
    assert(v.subrange(37, 69) =~= invite.account_id);
    assert(v.subrange(69, 85) =~= invite.fingerprint);
    assert(v.subrange(86, 94) =~= be64(expiry));
    assert(v.subrange(94, 158) =~= invite.signature);
    lemma_be64_round_trip(expiry);
    assert(qr_invite(v) == invite);
}

} // verus!
