//! The calls into the encoding, hashing, signing and randomness crates, each
//! behind a trusted item whose contract says what the crate's documentation
//! promises, plus the lowercase hexadecimal rendering of digests.
use vstd::prelude::*;
use base64::Engine;
use ed25519_dalek::{Signer, Verifier};
use sha2::Digest;

verus! {

// ---------------------------------------------------------------------------
// Base64 (standard alphabet, padded)
// ---------------------------------------------------------------------------
/// The text that `base64::engine::general_purpose::STANDARD.encode` produces for `bytes`.
pub uninterp spec fn base64_text(bytes: Seq<u8>) -> Seq<char>;

/// What `base64::engine::general_purpose::STANDARD.decode` gives back for `text`:
/// the decoded bytes, or `None` where it returns an error.
pub uninterp spec fn base64_decoding(text: Seq<char>) -> Option<Seq<u8>>;

/// A character of the standard Base64 alphabet, or the `=` padding character.
pub open spec fn is_base64_char(c: char) -> bool {
    ||| ('A' <= c && c <= 'Z')
    ||| ('a' <= c && c <= 'z')
    ||| ('0' <= c && c <= '9')
    ||| c == '+'
    ||| c == '/'
    ||| c == '='
}

/// Calls `STANDARD.encode(bytes)` of the `base64` crate. Trusted: the result is
/// the crate's encoding of `bytes`, it consists of standard-alphabet
/// characters and `=` padding only, and `STANDARD.decode` gives `bytes` back
/// from it. The crate panics when the encoded length overflows `usize`, which
/// the bound on the input rules out.
#[verifier::external_body]
pub(crate) fn base64_encode(bytes: &[u8]) -> (r: String)
    requires
        bytes@.len() <= usize::MAX / 2,
    ensures
        r@ == base64_text(bytes@),
        forall|i: int| 0 <= i < r@.len() ==> is_base64_char(#[trigger] r@[i]),
        base64_decoding(r@) == Some(bytes@),
{
    base64::engine::general_purpose::STANDARD.encode(bytes)
}

/// Calls `STANDARD.decode(text)` of the `base64` crate, with its error mapped to
/// `None`. Trusted: the result is the crate's decoding of `text`.
#[verifier::external_body]
pub(crate) fn base64_decode(text: &str) -> (r: Option<Vec<u8>>)
    ensures
        r matches Some(v) ==> base64_decoding(text@) == Some(v@),
        r is None ==> base64_decoding(text@) is None,
{
    base64::engine::general_purpose::STANDARD.decode(text).ok()
}

// ---------------------------------------------------------------------------
// Ed25519
// ---------------------------------------------------------------------------
/// The 32-byte public key that `ed25519_dalek` derives from a 32-byte secret.
pub uninterp spec fn ed25519_public(secret: Seq<u8>) -> Seq<u8>;

/// The 64-byte Ed25519 signature `ed25519_dalek` makes of `message` with the
/// key whose secret is `secret` (Ed25519 signing is deterministic).
pub uninterp spec fn ed25519_signature(secret: Seq<u8>, message: Seq<u8>) -> Seq<u8>;

/// `ed25519_dalek::VerifyingKey::from_bytes` accepts these 32 bytes as a point.
pub uninterp spec fn ed25519_point_valid(public: Seq<u8>) -> bool;

/// `ed25519_dalek` verification accepts `signature` on `message` under `public`.
pub uninterp spec fn ed25519_accepts(public: Seq<u8>, message: Seq<u8>, signature: Seq<u8>) -> bool;

/// Calls `SigningKey::from_bytes(secret).verifying_key()` of `ed25519_dalek`
/// and returns its bytes. Trusted: the result is the public key of `secret`,
/// and `VerifyingKey::from_bytes` accepts it again, since it is the
/// compression of a valid curve point.
#[verifier::external_body]
pub(crate) fn ed25519_public_key(secret: &[u8; 32]) -> (r: [u8; 32])
    ensures
        r@ == ed25519_public(secret@),
        ed25519_point_valid(r@),
{
    ed25519_dalek::SigningKey::from_bytes(secret).verifying_key().to_bytes()
}

/// Calls `Signer::sign` of `ed25519_dalek` with the key whose secret is
/// `secret`. Trusted: the result is that key's signature of `message`, and
/// verification with the key's public key accepts it (Ed25519 correctness).
#[verifier::external_body]
pub(crate) fn ed25519_sign(secret: &[u8; 32], message: &[u8]) -> (r: [u8; 64])
    ensures
        r@ == ed25519_signature(secret@, message@),
        ed25519_accepts(ed25519_public(secret@), message@, r@),
{
    ed25519_dalek::SigningKey::from_bytes(secret).sign(message).to_bytes()
}

/// Calls `VerifyingKey::from_bytes` of `ed25519_dalek`. Trusted: the result
/// says whether it accepts the bytes.
#[verifier::external_body]
pub(crate) fn ed25519_key_valid(public: &[u8; 32]) -> (r: bool)
    ensures
        r == ed25519_point_valid(public@),
{
    ed25519_dalek::VerifyingKey::from_bytes(public).is_ok()
}

/// Calls `Verifier::verify` of `ed25519_dalek` on the verifying key made from
/// `public`. Trusted: the result says whether verification accepts.
#[verifier::external_body]
pub(crate) fn ed25519_verify(public: &[u8; 32], message: &[u8], signature: &[u8; 64]) -> (r: bool)
    requires
        ed25519_point_valid(public@),
    ensures
        r == ed25519_accepts(public@, message@, signature@),
{
    match ed25519_dalek::VerifyingKey::from_bytes(public) {
        Ok(key) => key.verify(message, &ed25519_dalek::Signature::from_bytes(signature)).is_ok(),
        Err(_) => false,
    }
}


// ---------------------------------------------------------------------------
// SHA-256
// ---------------------------------------------------------------------------
/// A SHA-256 computation in progress: the `sha2` hasher, fed piece by piece.
#[verifier::external_body]
pub struct Sha256Stream {
    inner: sha2::Sha256,
}

/// The bytes a SHA-256 computation has been fed so far, in order.
pub uninterp spec fn sha256_absorbed(stream: Sha256Stream) -> Seq<u8>;

/// The SHA-256 digest of `bytes`.
pub uninterp spec fn sha256_digest(bytes: Seq<u8>) -> Seq<u8>;

/// Calls `Sha256::new` of `sha2`. Trusted: the new hasher has been fed nothing.
#[verifier::external_body]
pub(crate) fn sha256_start() -> (r: Sha256Stream)
    ensures
        sha256_absorbed(r) == Seq::<u8>::empty(),
{
    Sha256Stream { inner: sha2::Sha256::new() }
}

/// Calls `Digest::update` of `sha2`. Trusted: the hasher has then been fed
/// `bytes` after what it held.
#[verifier::external_body]
pub(crate) fn sha256_update(stream: &mut Sha256Stream, bytes: &[u8])
    ensures
        sha256_absorbed(*final(stream)) == sha256_absorbed(*old(stream)) + bytes@,
{
    stream.inner.update(bytes);
}

/// Calls `Digest::finalize` of `sha2`. Trusted: the result is the SHA-256
/// digest of everything the hasher was fed.
#[verifier::external_body]
pub(crate) fn sha256_finish(stream: Sha256Stream) -> (r: [u8; 32])
    ensures
        r@ == sha256_digest(sha256_absorbed(stream)),
{
    stream.inner.finalize().into()
}

/// The lowercase hexadecimal digit for `d` (0 to 15).
pub open spec fn hex_digit(d: nat) -> char {
    if d < 10 {
        (d + 48) as char
    } else {
        (d + 87) as char
    }
}

/// `bytes` written as lowercase hexadecimal, two digits per byte.
pub open spec fn lower_hex(bytes: Seq<u8>) -> Seq<char>
    decreases bytes.len(),
{
    if bytes.len() == 0 {
        Seq::empty()
    } else {
        lower_hex(bytes.drop_last()) + seq![
            hex_digit((bytes.last() / 16) as nat),
            hex_digit((bytes.last() % 16) as nat),
        ]
    }
}

fn hex_char(d: u8) -> (c: char)
    requires
        d < 16,
    ensures
        c == hex_digit(d as nat),
{
    if d < 10 {
        (d + 48) as char
    } else {
        (d + 87) as char
    }
}

/// Writes `bytes` as lowercase hexadecimal, as `{:x}` does for a digest.
pub fn hex_string(bytes: &[u8]) -> (r: String)
    ensures
        r@ == lower_hex(bytes@),
{
    let mut r = String::new();
    let n = bytes.len();
    for i in 0..n
        invariant
            n == bytes@.len(),
            r@ == lower_hex(bytes@.take(i as int)),
    {
        let b = bytes[i];
        r.push(hex_char(b / 16));
        r.push(hex_char(b % 16));
        assert(bytes@.take(i + 1).drop_last() == bytes@.take(i as int));
    }
    assert(bytes@.take(n as int) == bytes@);
    r
}

// ---------------------------------------------------------------------------
// Randomness
// ---------------------------------------------------------------------------
/// Calls `getrandom::getrandom` to fill 32 bytes, with its error turned into
/// its message. Trusted for nothing beyond its type: the bytes are whatever
/// the operating system's generator gave.
#[verifier::external_body]
pub(crate) fn random_secret() -> (r: Result<[u8; 32], String>) {
    let mut secret = [0u8; 32];
    match getrandom::getrandom(&mut secret) {
        Ok(()) => Ok(secret),
        Err(e) => Err(e.to_string()),
    }
}

} // verus!
