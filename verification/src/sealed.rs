//! Sealed blobs: a fresh 24-byte nonce followed by the XChaCha20-Poly1305 ciphertext.
use crate::bytes::{array24_at, push_bytes};
use crate::primitives::{
    random_bytes, xchacha20poly1305_open, xchacha20poly1305_seal, xchacha_open, xchacha_seal,
    AEAD_MESSAGE_LIMIT,
};
use vstd::prelude::*;

verus! {

/// The nonce of a sealed blob.
pub open spec fn blob_nonce(blob: Seq<u8>) -> Seq<u8> {
    blob.subrange(0, 24)
}

/// The ciphertext of a sealed blob.
pub open spec fn blob_ciphertext(blob: Seq<u8>) -> Seq<u8> {
    blob.subrange(24, blob.len() as int)
}

/// `blob` seals `plaintext` under `key` and `aad`, with whatever nonce it starts with.
pub open spec fn seals(key: Seq<u8>, aad: Seq<u8>, plaintext: Seq<u8>, blob: Seq<u8>) -> bool {
    &&& blob.len() == 24 + plaintext.len() + 16
    &&& blob_ciphertext(blob) == xchacha20poly1305_seal(key, blob_nonce(blob), aad, plaintext)
}

/// What opening a sealed blob gives.
pub open spec fn open_blob_spec(key: Seq<u8>, aad: Seq<u8>, blob: Seq<u8>) -> Option<Seq<u8>> {
    xchacha20poly1305_open(key, blob_nonce(blob), aad, blob_ciphertext(blob))
}

/// Seals `plaintext` under a fresh random nonce; `None` exactly where the cipher refuses
/// the length. The blob opens back to the plaintext.
pub(crate) fn seal_with_fresh_nonce(key: &[u8; 32], aad: &[u8], plaintext: &[u8]) -> (r: Option<
    Vec<u8>,
>)
    ensures
        plaintext@.len() < AEAD_MESSAGE_LIMIT <==> r is Some,
        r matches Some(b) ==> seals(key@, aad@, plaintext@, b@),
        r matches Some(b) ==> open_blob_spec(key@, aad@, b@) == Some(plaintext@),
{
    let random = random_bytes(24);
    let nonce = array24_at(random.as_slice(), 0);
    assert(nonce@ =~= random@);
    match xchacha_seal(key, &nonce, aad, plaintext) {
        Some(ciphertext) => {
            let mut out: Vec<u8> = Vec::new();
            push_bytes(&mut out, &nonce);
            push_bytes(&mut out, ciphertext.as_slice());
            assert(blob_nonce(out@) =~= nonce@);
            assert(blob_ciphertext(out@) =~= ciphertext@);
            Some(out)
        },
        None => None,
    }
}

/// Opens a sealed blob of at least 24 bytes.
pub(crate) fn open_blob(key: &[u8; 32], aad: &[u8], blob: &[u8]) -> (r: Option<Vec<u8>>)
    requires
        blob@.len() >= 24,
    ensures
        match r {
            Some(p) => open_blob_spec(key@, aad@, blob@) == Some(p@),
            None => open_blob_spec(key@, aad@, blob@) is None,
        },
{
    let nonce = array24_at(blob, 0);
    let ciphertext = vstd::slice::slice_subrange(blob, 24, blob.len());
    xchacha_open(key, &nonce, aad, ciphertext)
}

} // verus!
