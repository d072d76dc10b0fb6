//! Keyed-MAC verification of a signing input against an expected tag.

use vstd::prelude::*;
use vstd::string::StringSliceAdditionalSpecFns;

verus! {

/// The hash function that the MAC is built on.
#[derive(Clone, Copy, Debug, PartialEq, Eq, Structural)]
pub enum Algorithm {
    HS256,
    HS384,
    HS512,
}

impl Algorithm {
    /// The output width, in bits, of the algorithm's hash function.
    pub open spec fn digest_bits(self) -> u32 {
        match self {
            Algorithm::HS256 => 256,
            Algorithm::HS384 => 384,
            Algorithm::HS512 => 512,
        }
    }
}

/// Keys and messages of this many bytes or more are never signed: the hash
/// functions cannot take them.
pub open spec fn hmac_input_limit() -> nat {
    0x1000_0000_0000_0000
}

/// The HMAC tag of `message` under `key`, with SHA-2 of `digest_bits` bits of
/// output as the hash function.
pub uninterp spec fn hmac_tag(digest_bits: u32, key: Seq<u8>, message: Seq<u8>) -> Seq<u8>;

/// What unpadded URL-safe base64 text decodes to; `None` where the text is
/// not valid.
pub uninterp spec fn base64url_decoded(input: Seq<u8>) -> Option<Seq<u8>>;

#[verifier::external_type_specification]
#[verifier::external_body]
pub struct ExDecodeError(base64::DecodeError);

/// `ring::hmac::sign` with a key made by `ring::hmac::Key::new`: the tag is
/// the HMAC of the message under the key bytes. Both panic only on inputs
/// whose length in bits does not fit in 64 bits.
#[verifier::external_body]
fn hmac_sign(alg: Algorithm, secret: &[u8], message: &[u8]) -> (tag: Vec<u8>)
    requires
        secret@.len() < hmac_input_limit(),
        message@.len() < hmac_input_limit(),
    ensures
        tag@ == hmac_tag(alg.digest_bits(), secret@, message@),
{
    let hash = match alg {
        Algorithm::HS256 => ring::hmac::HMAC_SHA256,
        Algorithm::HS384 => ring::hmac::HMAC_SHA384,
        Algorithm::HS512 => ring::hmac::HMAC_SHA512,
    };
    let key = ring::hmac::Key::new(hash, secret);
    ring::hmac::sign(&key, message).as_ref().to_vec()
}

/// `ring::constant_time::verify_slices_are_equal`: succeeds exactly when the
/// two slices hold the same bytes.
#[verifier::external_body]
#[allow(deprecated)]
fn slices_are_equal(a: &[u8], b: &[u8]) -> (equal: bool)
    ensures
        equal == (a@ == b@),
{
    ring::constant_time::verify_slices_are_equal(a, b).is_ok()
}

/// `Engine::decode` of `base64::engine::general_purpose::URL_SAFE_NO_PAD`:
/// the decoded bytes, or the reason why the text is not valid.
#[verifier::external_body]
fn base64url_decode(input: &[u8]) -> (decoded: Result<Vec<u8>, base64::DecodeError>)
    ensures
        decoded is Ok <==> base64url_decoded(input@) is Some,
        decoded matches Ok(bytes) ==> base64url_decoded(input@) == Some(bytes@),
{
    base64::Engine::decode(&base64::engine::general_purpose::URL_SAFE_NO_PAD, input)
}

/// Decodes unpadded URL-safe base64 text; `None` where it is not valid.
pub fn decode_base64url(input: &[u8]) -> (decoded: Option<Vec<u8>>)
    ensures
        decoded is Some <==> base64url_decoded(input@) is Some,
        decoded matches Some(bytes) ==> base64url_decoded(input@) == Some(bytes@),
{
    match base64url_decode(input) {
        Ok(bytes) => Some(bytes),
        Err(_) => None,
    }
}

/// Whether `expected_sig` is the tag of `message` under the key bytes
/// `secret`.
pub open spec fn hmac_matches(
    alg: Algorithm,
    secret: Seq<u8>,
    message: Seq<u8>,
    expected_sig: Seq<u8>,
) -> bool {
    &&& secret.len() < hmac_input_limit()
    &&& message.len() < hmac_input_limit()
    &&& hmac_tag(alg.digest_bits(), secret, message) == expected_sig
}

/// What `verify_hmac` returns once the tag has been computed.
pub fn tag_matches(tag: &[u8], expected_sig: &[u8]) -> (matches: bool)
    ensures
        matches == (tag@ == expected_sig@),
{
    slices_are_equal(tag, expected_sig)
}

/// Computes the MAC of `message` under `secret` and compares it with
/// `expected_sig` in constant time.
pub fn verify_hmac(alg: Algorithm, secret: &[u8], message: &[u8], expected_sig: &[u8]) -> (matches:
    bool)
    ensures
        matches == hmac_matches(alg, secret@, message@, expected_sig@),
{
    if secret.len() as u64 >= 0x1000_0000_0000_0000u64 || message.len() as u64
        >= 0x1000_0000_0000_0000u64 {
        return false;
    }
    let tag = hmac_sign(alg, secret, message);
    tag_matches(tag.as_slice(), expected_sig)
}

/// Whether `expected_sig` is the tag of `message` under the key that the
/// base64 text `secret` decodes to.
pub open spec fn hmac_base64_matches(
    alg: Algorithm,
    secret: Seq<u8>,
    message: Seq<u8>,
    expected_sig: Seq<u8>,
) -> bool {
    match base64url_decoded(secret) {
        Some(key) => hmac_matches(alg, key, message, expected_sig),
        None => false,
    }
}

/// As `verify_hmac`, with the key given as unpadded URL-safe base64 text. A
/// secret that does not decode matches nothing.
pub fn verify_hmac_base64(alg: Algorithm, secret: &str, message: &[u8], expected_sig: &[u8]) -> (matches:
    bool)
    ensures
        matches == hmac_base64_matches(alg, secret.spec_bytes(), message@, expected_sig@),
{
    match decode_base64url(secret.as_bytes()) {
        Some(key) => verify_hmac(alg, key.as_slice(), message, expected_sig),
        None => false,
    }
}

} // verus!
