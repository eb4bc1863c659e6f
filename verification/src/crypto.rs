//! Keys, signatures and digests, on plain bytes.

use vstd::prelude::*;

verus! {

/// The length of an Ed25519 secret key.
pub const SECRET_LEN: usize = 32;

// ---------------------------------------------------------------------------
// Base64
// ---------------------------------------------------------------------------

/// The character of the URL-safe Base64 alphabet for a value below 64.
pub open spec fn base64_char(v: int) -> char {
    if v < 26 {
        (('A' as u32 + v) as u32) as char
    } else if v < 52 {
        (('a' as u32 + (v - 26)) as u32) as char
    } else if v < 62 {
        (('0' as u32 + (v - 52)) as u32) as char
    } else if v == 62 {
        '-'
    } else {
        '_'
    }
}

/// Two to the power of 10, 8, 6 or 4: what six bits have to be shifted by that begin at the given
/// bit of a byte, in a pair of bytes.
pub open spec fn shift_unit(bit: int) -> int {
    if bit == 0 {
        1024
    } else if bit == 2 {
        256
    } else if bit == 4 {
        64
    } else {
        16
    }
}

/// The `i`th group of six bits of a sequence of bytes, with zeros behind its end.
pub open spec fn sextet(bytes: Seq<u8>, i: int) -> int {
    let k = 6 * i / 8;
    let following = if k + 1 < bytes.len() {
        bytes[k + 1] as int
    } else {
        0
    };
    (bytes[k] as int * 256 + following) / shift_unit(6 * i % 8) % 64
}

/// The URL-safe Base64 notation of a sequence of bytes, without padding: one character for each
/// group of six bits.
pub open spec fn base64url(bytes: Seq<u8>) -> Seq<char> {
    Seq::new(((8 * bytes.len() + 5) / 6) as nat, |i: int| base64_char(sextet(bytes, i)))
}

/// What the `base64` crate reads from a text in URL-safe Base64 without padding.
pub uninterp spec fn base64url_decoded(text: Seq<char>) -> Option<Seq<u8>>;

/// Writes bytes in URL-safe Base64 with `base64`'s `URL_SAFE_NO_PAD.encode`: six bits to a
/// character, no padding. Reading the text gives the bytes back.
#[verifier::external_body]
pub(crate) fn encode_base64url(bytes: &[u8]) -> (text: String)
    ensures
        text@ == base64url(bytes@),
        base64url_decoded(text@) == Some(bytes@),
{
    base64::Engine::encode(&base64::engine::general_purpose::URL_SAFE_NO_PAD, bytes)
}

pub open spec fn opt_bytes(value: Option<Vec<u8>>) -> Option<Seq<u8>> {
    match value {
        Some(bytes) => Some(bytes@),
        None => None,
    }
}

/// Reads bytes in URL-safe Base64 with `base64`'s `URL_SAFE_NO_PAD.decode`. The contract names the
/// outcome; it is a function of the text alone.
#[verifier::external_body]
pub(crate) fn decode_base64url(text: &str) -> (bytes: Option<Vec<u8>>)
    ensures
        opt_bytes(bytes) == base64url_decoded(text@),
{
    base64::Engine::decode(&base64::engine::general_purpose::URL_SAFE_NO_PAD, text).ok()
}

// ---------------------------------------------------------------------------
// Digests
// ---------------------------------------------------------------------------

/// The SHA-256 digest of a sequence of bytes.
pub uninterp spec fn sha256_digest(bytes: Seq<u8>) -> Seq<u8>;

/// Computes a SHA-256 digest with `sha2::Sha256::digest`. The contract names the digest, which has
/// 32 bytes.
#[verifier::external_body]
pub(crate) fn sha256(bytes: &[u8]) -> (digest: Vec<u8>)
    ensures
        digest@ == sha256_digest(bytes@),
        digest@.len() == 32,
{
    <sha2::Sha256 as sha2::Digest>::digest(bytes).to_vec()
}

// ---------------------------------------------------------------------------
// Ed25519
// ---------------------------------------------------------------------------

/// The public key that goes with an Ed25519 secret key.
pub uninterp spec fn ed25519_public(secret: Seq<u8>) -> Seq<u8>;

/// The Ed25519 signature of a message.
pub uninterp spec fn ed25519_signature(secret: Seq<u8>, message: Seq<u8>) -> Seq<u8>;

/// The secret key that a PKCS#8 document in PEM notation holds, or the message of the error.
pub uninterp spec fn pem_secret(pem: Seq<char>) -> Result<Seq<u8>, Seq<char>>;

/// The public key that a SubjectPublicKeyInfo document in PEM notation holds, or the message of the
/// error.
pub uninterp spec fn pem_public(pem: Seq<char>) -> Result<Seq<u8>, Seq<char>>;

/// The secret key that a PKCS#8 document in DER notation holds, or the message of the error.
pub uninterp spec fn der_secret(der: Seq<u8>) -> Result<Seq<u8>, Seq<char>>;

/// The PKCS#8 document of a secret key in PEM notation.
pub uninterp spec fn secret_pem(secret: Seq<u8>) -> Seq<char>;

/// The SubjectPublicKeyInfo document of the public key of a secret key in PEM notation.
pub uninterp spec fn public_pem(secret: Seq<u8>) -> Seq<char>;

/// The public key of a secret key: `ed25519_dalek`'s `SigningKey::from_bytes` and `verifying_key`.
/// The contract names the key, which has 32 bytes.
#[verifier::external_body]
pub(crate) fn public_key(secret: &Vec<u8>) -> (public: Vec<u8>)
    requires
        secret@.len() == SECRET_LEN,
    ensures
        public@ == ed25519_public(secret@),
        public@.len() == 32,
{
    let mut bytes = [0u8; SECRET_LEN];
    bytes.copy_from_slice(secret);
    ed25519_dalek::SigningKey::from_bytes(&bytes).verifying_key().as_bytes().to_vec()
}

/// Signs a message with `ed25519_dalek`'s `SigningKey::sign`. The contract names the signature,
/// which has 64 bytes; Ed25519 signatures depend on the key and the message alone.
#[verifier::external_body]
pub(crate) fn sign(secret: &Vec<u8>, message: &[u8]) -> (signature: Vec<u8>)
    requires
        secret@.len() == SECRET_LEN,
    ensures
        signature@ == ed25519_signature(secret@, message@),
        signature@.len() == 64,
{
    let mut bytes = [0u8; SECRET_LEN];
    bytes.copy_from_slice(secret);
    let key = ed25519_dalek::SigningKey::from_bytes(&bytes);
    ed25519_dalek::Signer::sign(&key, message).to_bytes().to_vec()
}

pub open spec fn bytes_result(result: Result<Vec<u8>, String>) -> Result<Seq<u8>, Seq<char>> {
    match result {
        Ok(bytes) => Ok(bytes@),
        Err(message) => Err(message@),
    }
}

/// Reads a secret key from a PKCS#8 document in PEM notation: `ed25519_dalek`'s
/// `SigningKey::from_pkcs8_pem`. The contract names the outcome; a key has 32 bytes.
#[verifier::external_body]
pub(crate) fn secret_from_pem(pem: &str) -> (result: Result<Vec<u8>, String>)
    ensures
        bytes_result(result) == pem_secret(pem@),
        result matches Ok(secret) ==> secret@.len() == SECRET_LEN,
{
    <ed25519_dalek::SigningKey as ed25519_dalek::pkcs8::DecodePrivateKey>::from_pkcs8_pem(pem)
        .map(|key| key.to_bytes().to_vec())
        .map_err(|err| err.to_string())
}

/// Reads a public key from a document in PEM notation: `ed25519_dalek`'s
/// `VerifyingKey::from_public_key_pem`. The contract names the outcome.
#[verifier::external_body]
pub(crate) fn public_from_pem(pem: &str) -> (result: Result<Vec<u8>, String>)
    ensures
        bytes_result(result) == pem_public(pem@),
{
    <ed25519_dalek::VerifyingKey as pkcs8::DecodePublicKey>::from_public_key_pem(pem)
        .map(|key| key.as_bytes().to_vec())
        .map_err(|err| err.to_string())
}

/// Reads a secret key from a PKCS#8 document in DER notation: `ed25519_dalek`'s
/// `SigningKey::from_pkcs8_der`. The contract names the outcome; a key has 32 bytes.
#[verifier::external_body]
pub(crate) fn secret_from_der(der: &Vec<u8>) -> (result: Result<Vec<u8>, String>)
    ensures
        bytes_result(result) == der_secret(der@),
        result matches Ok(secret) ==> secret@.len() == SECRET_LEN,
{
    <ed25519_dalek::SigningKey as ed25519_dalek::pkcs8::DecodePrivateKey>::from_pkcs8_der(der)
        .map(|key| key.to_bytes().to_vec())
        .map_err(|err| err.to_string())
}

/// Writes a secret key as a PKCS#8 document in PEM notation: `ed25519_dalek`'s
/// `SigningKey::to_pkcs8_pem`, with line feeds. The contract names the document; reading it gives
/// the key back. A key of 32 bytes can always be written.
#[verifier::external_body]
pub(crate) fn secret_to_pem(secret: &Vec<u8>) -> (pem: String)
    requires
        secret@.len() == SECRET_LEN,
    ensures
        pem@ == secret_pem(secret@),
        pem_secret(pem@) is Ok && pem_secret(pem@)->Ok_0 == secret@,
{
    let mut bytes = [0u8; SECRET_LEN];
    bytes.copy_from_slice(secret);
    let key = ed25519_dalek::SigningKey::from_bytes(&bytes);
    ed25519_dalek::pkcs8::EncodePrivateKey::to_pkcs8_pem(&key, pkcs8::LineEnding::LF)
        .map(|pem| pem.to_string())
        .unwrap_or_default()
}

/// Writes the public key of a secret key as a document in PEM notation: `ed25519_dalek`'s
/// `VerifyingKey::to_public_key_pem`, with line feeds. The contract names the document; reading it
/// gives the public key back. The public key of a secret key can always be written.
#[verifier::external_body]
pub(crate) fn public_to_pem(secret: &Vec<u8>) -> (pem: String)
    requires
        secret@.len() == SECRET_LEN,
    ensures
        pem@ == public_pem(secret@),
        pem_public(pem@) is Ok && pem_public(pem@)->Ok_0 == ed25519_public(secret@),
{
    let mut bytes = [0u8; SECRET_LEN];
    bytes.copy_from_slice(secret);
    let key = ed25519_dalek::SigningKey::from_bytes(&bytes).verifying_key();
    pkcs8::EncodePublicKey::to_public_key_pem(&key, pkcs8::LineEnding::LF).unwrap_or_default()
}

} // verus!
