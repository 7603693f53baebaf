//! The cryptographic and text primitives that the library takes from outside crates.
//! Each function here makes one outside call; its contract is what the outside
//! crate's source and documentation show, and is believed without proof.
use bip39::{Language, Mnemonic};
use chacha20poly1305::{
    aead::{Aead, KeyInit, Payload},
    XChaCha20Poly1305, XNonce,
};
use ed25519_dalek::{Signature, Signer, SigningKey, Verifier, VerifyingKey};
use hkdf::Hkdf;
use rand_core::{OsRng, RngCore};
use sha2::{Digest, Sha256};
use std::time::{SystemTime, UNIX_EPOCH};
use unicode_normalization::UnicodeNormalization;
use vstd::prelude::*;
use vstd::utf8::*;

verus! {

/// SHA-256 of a byte string.
pub uninterp spec fn sha256(data: Seq<u8>) -> Seq<u8>;

/// Calls `sha2::Sha256::digest`: the result is the SHA-256 digest of `data`,
/// named `sha256`. Nothing is said of what the digest is.
#[verifier::external_body]
pub(crate) fn sha256_digest(data: &[u8]) -> (r: [u8; 32])
    ensures
        r@ == sha256(data@),
{
    Sha256::digest(data).into()
}

/// The Ed25519 public key of a 32-byte secret key.
pub uninterp spec fn ed25519_public_key(secret: Seq<u8>) -> Seq<u8>;

/// The (deterministic, RFC 8032) Ed25519 signature of `message` under `secret`.
pub uninterp spec fn ed25519_signature(secret: Seq<u8>, message: Seq<u8>) -> Seq<u8>;

/// Whether `signature` verifies for `message` under the encoded public key `public`
/// (false also where `public` is not the encoding of a curve point).
pub uninterp spec fn ed25519_accepts(public: Seq<u8>, message: Seq<u8>, signature: Seq<u8>) -> bool;

/// Calls `SigningKey::from_bytes(..).verifying_key().to_bytes()` of ed25519-dalek:
/// the public key of `secret`, named `ed25519_public_key`. It is the compressed form of
/// a curve point, so `VerifyingKey::from_bytes` decodes it again.
#[verifier::external_body]
pub(crate) fn ed25519_public(secret: &[u8; 32]) -> (r: [u8; 32])
    ensures
        r@ == ed25519_public_key(secret@),
        ed25519_key_valid(r@),
{
    SigningKey::from_bytes(secret).verifying_key().to_bytes()
}

/// Calls ed25519-dalek's `SigningKey::sign`: the deterministic signature of `message`,
/// named `ed25519_signature`, which verifies under the key's own public key. That a
/// signature cannot be forged is not stated.
#[verifier::external_body]
pub(crate) fn ed25519_sign(secret: &[u8; 32], message: &[u8]) -> (r: [u8; 64])
    ensures
        r@ == ed25519_signature(secret@, message@),
        ed25519_accepts(ed25519_public_key(secret@), message@, r@),
{
    SigningKey::from_bytes(secret).sign(message).to_bytes()
}

/// Whether 32 bytes are the encoding of an Ed25519 public key that ed25519-dalek accepts.
pub uninterp spec fn ed25519_key_valid(public: Seq<u8>) -> bool;

/// Calls ed25519-dalek's `VerifyingKey::from_bytes`: whether the bytes decode to a
/// public key, named `ed25519_key_valid`.
#[verifier::external_body]
pub(crate) fn ed25519_key_decodes(public: &[u8; 32]) -> (r: bool)
    ensures
        r == ed25519_key_valid(public@),
{
    VerifyingKey::from_bytes(public).is_ok()
}

/// Calls `VerifyingKey::from_bytes` and `Verifier::verify` of ed25519-dalek: whether
/// the signature verifies, named `ed25519_accepts`; false where the key does not decode.
#[verifier::external_body]
pub(crate) fn ed25519_verify(public: &[u8; 32], message: &[u8], signature: &[u8; 64]) -> (r: bool)
    ensures
        r == ed25519_accepts(public@, message@, signature@),
        r ==> ed25519_key_valid(public@),
{
    match VerifyingKey::from_bytes(public) {
        Ok(key) => key.verify(message, &Signature::from_bytes(signature)).is_ok(),
        Err(_) => false,
    }
}

/// The first 32 output bytes of HKDF-SHA-256.
pub uninterp spec fn hkdf_sha256_32(salt: Seq<u8>, ikm: Seq<u8>, info: Seq<u8>) -> Seq<u8>;

/// Calls `Hkdf::<Sha256>::new(Some(salt), ikm).expand(info, ..)` of the hkdf crate for 32
/// output bytes, which never fails at that length: the key named `hkdf_sha256_32`.
#[verifier::external_body]
pub(crate) fn hkdf_sha256_expand32(salt: &[u8], ikm: &[u8], info: &[u8]) -> (r: [u8; 32])
    ensures
        r@ == hkdf_sha256_32(salt@, ikm@, info@),
{
    let mut key = [0u8; 32];
    let _ = Hkdf::<Sha256>::new(Some(salt), ikm).expand(info, &mut key);
    key
}

/// XChaCha20-Poly1305 encryption: the ciphertext followed by the 16-byte tag.
pub uninterp spec fn xchacha20poly1305_seal(
    key: Seq<u8>,
    nonce: Seq<u8>,
    aad: Seq<u8>,
    plaintext: Seq<u8>,
) -> Seq<u8>;

/// XChaCha20-Poly1305 decryption: the plaintext, or `None` where authentication fails.
pub uninterp spec fn xchacha20poly1305_open(
    key: Seq<u8>,
    nonce: Seq<u8>,
    aad: Seq<u8>,
    ciphertext: Seq<u8>,
) -> Option<Seq<u8>>;

/// The message length from which chacha20poly1305 refuses to encrypt (64 · (2^32 − 1)).
pub const AEAD_MESSAGE_LIMIT: u64 = 274877906880;

/// Calls `XChaCha20Poly1305::encrypt` with a payload of `plaintext` and `aad`: the
/// ciphertext named `xchacha20poly1305_seal`, 16 bytes longer than the plaintext, which
/// `xchacha20poly1305_open` turns back into the plaintext; `None` exactly where the
/// crate refuses the length. That the ciphertext hides the plaintext is not stated.
#[verifier::external_body]
pub(crate) fn xchacha_seal(key: &[u8; 32], nonce: &[u8; 24], aad: &[u8], plaintext: &[u8]) -> (r:
    Option<Vec<u8>>)
    ensures
        plaintext@.len() < AEAD_MESSAGE_LIMIT <==> r is Some,
        r matches Some(c) ==> c@ == xchacha20poly1305_seal(key@, nonce@, aad@, plaintext@),
        r matches Some(c) ==> c@.len() == plaintext@.len() + 16,
        r matches Some(c) ==> xchacha20poly1305_open(key@, nonce@, aad@, c@) == Some(plaintext@),
{
    XChaCha20Poly1305::new(key.into()).encrypt(
        XNonce::from_slice(nonce),
        Payload { msg: plaintext, aad },
    ).ok()
}

/// Calls `XChaCha20Poly1305::decrypt` with a payload of `ciphertext` and `aad`: the
/// plaintext, or `None`, as named by `xchacha20poly1305_open`.
#[verifier::external_body]
pub(crate) fn xchacha_open(key: &[u8; 32], nonce: &[u8; 24], aad: &[u8], ciphertext: &[u8]) -> (r:
    Option<Vec<u8>>)
    ensures
        match r {
            Some(p) => xchacha20poly1305_open(key@, nonce@, aad@, ciphertext@) == Some(p@),
            None => xchacha20poly1305_open(key@, nonce@, aad@, ciphertext@) is None,
        },
{
    XChaCha20Poly1305::new(key.into()).decrypt(
        XNonce::from_slice(nonce),
        Payload { msg: ciphertext, aad },
    ).ok()
}

/// Calls `OsRng::fill_bytes` of rand_core: `n` bytes from the operating system's
/// random source. Only their number is stated.
#[verifier::external_body]
pub(crate) fn random_bytes(n: usize) -> (r: Vec<u8>)
    ensures
        r@.len() == n,
{
    let mut value = vec![0u8; n];
    OsRng.fill_bytes(&mut value);
    value
}

/// Calls `SystemTime::now` and reads it as whole seconds since the Unix epoch (0 for a
/// clock before the epoch). Nothing is stated of the value.
#[verifier::external_body]
pub fn unix_time() -> u64 {
    SystemTime::now().duration_since(UNIX_EPOCH).unwrap_or_default().as_secs()
}

/// The NFKC normal form of a string.
pub uninterp spec fn nfkc(s: Seq<char>) -> Seq<char>;

/// Every character is 7-bit ASCII.
pub open spec fn all_ascii(s: Seq<char>) -> bool {
    forall|i: int| 0 <= i < s.len() ==> (s[i] as u32) < 128
}

/// Calls unicode-normalization's `nfkc` on `s` and collects the characters: the string
/// named `nfkc`. Text of 7-bit ASCII alone comes back unchanged: ASCII never
/// decomposes and every ASCII character is a starter that composes with no other
/// ASCII character.
#[verifier::external_body]
pub(crate) fn nfkc_chars(s: &str) -> (r: Vec<char>)
    ensures
        r@ == nfkc(s@),
        all_ascii(s@) ==> r@ == s@,
{
    s.nfkc().collect()
}

/// The lower-case mapping of one character, as `char::to_lowercase` gives it.
pub uninterp spec fn char_lowercase(c: char) -> Seq<char>;

/// An upper-case ASCII letter.
pub open spec fn ascii_upper(c: char) -> bool {
    'A' <= c && c <= 'Z'
}

/// Calls std's `char::to_lowercase` and collects the characters: the sequence named
/// `char_lowercase`. A lower-case ASCII letter, an ASCII digit, `_` and `.` have no
/// other lower-case mapping, so each gives itself alone; an upper-case ASCII letter gives
/// its lower-case letter. The mapping comes from the Unicode Character Database
/// (UnicodeData.txt and SpecialCasing.txt), in which no character's lower-case mapping
/// holds an upper-case ASCII letter.
#[verifier::external_body]
pub(crate) fn lowercase_chars(c: char) -> (r: Vec<char>)
    ensures
        r@ == char_lowercase(c),
        ('a' <= c && c <= 'z') || ('0' <= c && c <= '9') || c == '_' || c == '.' ==> r@ == seq![c],
        ascii_upper(c) ==> r@ == seq![((c as u32) + 32) as char],
        forall|i: int| 0 <= i < r@.len() ==> !ascii_upper(#[trigger] r@[i]),
{
    c.to_lowercase().collect()
}

/// The lower-case form of a string, as `str::to_lowercase` gives it.
pub uninterp spec fn str_lowercase(s: Seq<char>) -> Seq<char>;

/// Calls std's `str::to_lowercase`: the string named `str_lowercase`.
#[verifier::external_body]
pub(crate) fn lowercase_string(s: &str) -> (r: String)
    ensures
        r@ == str_lowercase(s@),
{
    s.to_lowercase()
}

/// Calls `SystemTime::now` and reads it as whole milliseconds since the Unix epoch (0 for
/// a clock before the epoch). Nothing is stated of the value.
#[verifier::external_body]
pub(crate) fn unix_time_millis() -> u128 {
    SystemTime::now().duration_since(UNIX_EPOCH).unwrap_or_default().as_millis()
}

/// Calls std's `String::from_iter` over characters: a string of exactly these characters.
#[verifier::external_body]
pub(crate) fn string_from_chars(chars: &[char]) -> (r: String)
    ensures
        r@ == chars@,
{
    chars.iter().collect()
}

/// Calls std's `str::from_utf8` and copies the string: `Some` exactly for valid UTF-8,
/// holding the characters that the bytes encode.
#[verifier::external_body]
pub(crate) fn string_from_utf8(bytes: &[u8]) -> (r: Option<String>)
    ensures
        r is Some <==> valid_utf8(bytes@),
        r matches Some(s) ==> s@ == decode_utf8(bytes@),
{
    std::str::from_utf8(bytes).ok().map(|s| s.to_owned())
}

/// The entropy that an English BIP-39 phrase encodes, if the phrase is valid.
pub uninterp spec fn bip39_entropy(phrase: Seq<char>) -> Option<Seq<u8>>;

/// The English BIP-39 phrase of an entropy.
pub uninterp spec fn bip39_phrase(entropy: Seq<u8>) -> Seq<char>;

/// Calls bip39's `Mnemonic::generate_in(Language::English, 24)`, which cannot fail for 24
/// words, and returns its entropy (`to_entropy`): 32 random bytes. Only their number is
/// stated.
#[verifier::external_body]
pub(crate) fn bip39_generate_24() -> (r: Vec<u8>)
    ensures
        r@.len() == 32,
{
    Mnemonic::generate_in(Language::English, 24).map(|m| m.to_entropy()).unwrap_or_default()
}

/// Calls bip39's `Mnemonic::parse_in_normalized(Language::English, ..)` and returns the
/// phrase's entropy (`to_entropy`): the value named `bip39_entropy`, which is 16 to 32
/// bytes long, a multiple of 4.
#[verifier::external_body]
pub(crate) fn bip39_parse(phrase: &str) -> (r: Option<Vec<u8>>)
    ensures
        match r {
            Some(e) => bip39_entropy(phrase@) == Some(e@) && 16 <= e@.len() <= 32 && e@.len() % 4
                == 0,
            None => bip39_entropy(phrase@) is None,
        },
{
    Mnemonic::parse_in_normalized(Language::English, phrase).ok().map(|m| m.to_entropy())
}

/// Calls bip39's `Mnemonic::from_entropy_in(Language::English, ..)`, which accepts 16 to 32
/// bytes in steps of 4, and shows the phrase with `to_string`: the phrase named
/// `bip39_phrase`, which parses back to the same entropy.
#[verifier::external_body]
pub(crate) fn bip39_words(entropy: &[u8]) -> (r: String)
    requires
        16 <= entropy@.len() <= 32,
        entropy@.len() % 4 == 0,
    ensures
        r@ == bip39_phrase(entropy@),
        bip39_entropy(r@) == Some(entropy@),
{
    Mnemonic::from_entropy_in(Language::English, entropy).map(|m| m.to_string()).unwrap_or_default()
}

} // verus!
