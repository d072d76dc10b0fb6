//! The compact token: its parts, and the check of a candidate secret
//! against its signature.

use crate::crypto::{
    base64url_decoded, decode_base64url, hmac_input_limit, hmac_matches, hmac_tag, verify_hmac,
    Algorithm,
};
use crate::text::{same_text, split, split_on, texts, to_upper, uppercased};
use vstd::prelude::*;
use vstd::string::StringSliceAdditionalSpecFns;
use vstd::utf8::encode_utf8;

verus! {

/// Why a token could not be taken apart.
#[derive(Clone, Copy, Debug, PartialEq, Eq, Structural)]
pub enum JwtError {
    /// The token is not made of three dot-separated, non-empty segments.
    InvalidFormat,
    /// A segment is not valid base64.
    InvalidBase64,
}

impl JwtError {
    /// The text of the message that goes with an error.
    pub open spec fn message_text(self) -> Seq<char> {
        match self {
            JwtError::InvalidFormat => "Invalid token format"@,
            JwtError::InvalidBase64 => "Invalid base64 encoding"@,
        }
    }

    /// The message that goes with the error.
    pub fn message(&self) -> (text: String)
        ensures
            text@ == self.message_text(),
    {
        match self {
            JwtError::InvalidFormat => "Invalid token format".to_owned(),
            JwtError::InvalidBase64 => "Invalid base64 encoding".to_owned(),
        }
    }
}

/// A token split into what is signed and the signature it carries.
pub struct JwtParts {
    /// Header and payload joined by a dot, as they stand in the token.
    pub content: String,
    /// The signature segment, still encoded.
    pub expected_sig: String,
}

/// The dot-separated segments of a token.
pub open spec fn segments(token: Seq<char>) -> Seq<Seq<char>> {
    split_on(token, '.')
}

/// Whether a token is three dot-separated segments, none of them empty.
pub open spec fn well_formed(token: Seq<char>) -> bool {
    &&& segments(token).len() == 3
    &&& forall|i: int| 0 <= i < 3 ==> (#[trigger] segments(token)[i]).len() > 0
}

/// Splits a token at its dots. A token of exactly three segments, none of
/// them empty, gives the first two, joined by a dot as they were, and the
/// third; any other is refused.
pub fn parse_token(token: &str) -> (parts: Result<JwtParts, JwtError>)
    ensures
        parts is Ok <==> well_formed(token@),
        parts matches Err(e) ==> e == JwtError::InvalidFormat,
        parts matches Ok(p) ==> {
            &&& p.content@ == segments(token@)[0] + seq!['.'] + segments(token@)[1]
            &&& p.expected_sig@ == segments(token@)[2]
        },
{
    let parts = split(token, '.');
    assert(parts@.len() == texts(parts@).len());
    if parts.len() != 3 {
        return Err(JwtError::InvalidFormat);
    }
    assert(texts(parts@)[0] == parts@[0]@);
    assert(texts(parts@)[1] == parts@[1]@);
    assert(texts(parts@)[2] == parts@[2]@);
    if parts[0].as_str().is_empty() || parts[1].as_str().is_empty() || parts[2].as_str().is_empty() {
        return Err(JwtError::InvalidFormat);
    }
    proof {
        reveal_strlit(".");
    }
    let mut content = parts[0].clone();
    content.append(".");
    content.append(parts[1].as_str());
    assert("."@ == seq!['.']);
    Ok(JwtParts { content, expected_sig: parts[2].clone() })
}

/// The algorithm that an upper-case name selects.
pub open spec fn algorithm_named(upper: Seq<char>) -> Option<Algorithm> {
    if upper == "HS256"@ || upper == "HMACSHA256"@ {
        Some(Algorithm::HS256)
    } else if upper == "HS384"@ || upper == "HMACSHA384"@ {
        Some(Algorithm::HS384)
    } else if upper == "HS512"@ || upper == "HMACSHA512"@ {
        Some(Algorithm::HS512)
    } else {
        None
    }
}

/// The algorithm that an upper-case name selects, if it selects one.
pub fn algorithm_from_upper(upper: &str) -> (alg: Option<Algorithm>)
    ensures
        alg == algorithm_named(upper@),
{
    if same_text(upper, "HS256") || same_text(upper, "HMACSHA256") {
        Some(Algorithm::HS256)
    } else if same_text(upper, "HS384") || same_text(upper, "HMACSHA384") {
        Some(Algorithm::HS384)
    } else if same_text(upper, "HS512") || same_text(upper, "HMACSHA512") {
        Some(Algorithm::HS512)
    } else {
        None
    }
}

/// The algorithm that a name selects, whatever its case.
pub fn parse_algorithm(name: &str) -> (alg: Option<Algorithm>)
    ensures
        alg == algorithm_named(uppercased(name@)),
{
    let upper = to_upper(name);
    algorithm_from_upper(upper.as_str())
}

/// Whether a candidate secret accounts for a token's signature: the key is
/// the secret's bytes, or what they decode to; the signature must decode;
/// the algorithm must be one of the three; and the tag of the content under
/// the key must be the decoded signature.
pub open spec fn signature_verifies(
    content: Seq<u8>,
    expected_sig: Seq<u8>,
    secret: Seq<u8>,
    algorithm: Option<Algorithm>,
    use_base64: bool,
) -> bool {
    let key = if use_base64 {
        base64url_decoded(secret)
    } else {
        Some(secret)
    };
    match (key, base64url_decoded(expected_sig), algorithm) {
        (Some(k), Some(sig), Some(alg)) => hmac_matches(alg, k, content, sig),
        _ => false,
    }
}

/// As `verify_signature`, with the algorithm already resolved.
pub fn verify_with(jwt: &JwtParts, secret: &str, algorithm: Option<Algorithm>, use_base64: bool) -> (matches:
    bool)
    ensures
        matches == signature_verifies(
            encode_utf8(jwt.content@),
            encode_utf8(jwt.expected_sig@),
            encode_utf8(secret@),
            algorithm,
            use_base64,
        ),
{
    let decoded_secret = if use_base64 {
        match decode_base64url(secret.as_bytes()) {
            Some(decoded) => decoded,
            None => {
                return false;
            },
        }
    } else {
        secret.as_bytes_vec()
    };
    let decoded_expected_sig = match decode_base64url(jwt.expected_sig.as_str().as_bytes()) {
        Some(decoded) => decoded,
        None => {
            return false;
        },
    };
    match algorithm {
        Some(alg) => verify_hmac(
            alg,
            decoded_secret.as_slice(),
            jwt.content.as_str().as_bytes(),
            decoded_expected_sig.as_slice(),
        ),
        None => false,
    }
}

/// Tests a candidate secret against a token's signature. A secret or a
/// signature that does not decode, and an algorithm that is not supported,
/// give `false`.
pub fn verify_signature(jwt: &JwtParts, secret: &str, algorithm: &str, use_base64: bool) -> (matches:
    bool)
    ensures
        matches == signature_verifies(
            encode_utf8(jwt.content@),
            encode_utf8(jwt.expected_sig@),
            encode_utf8(secret@),
            algorithm_named(uppercased(algorithm@)),
            use_base64,
        ),
{
    verify_with(jwt, secret, parse_algorithm(algorithm), use_base64)
}

/// A token whose signature is the tag of its content under a secret
/// verifies with that secret, and with another exactly where the other
/// gives the same tag.
pub proof fn lemma_signed_token_verifies(
    content: Seq<u8>,
    expected_sig: Seq<u8>,
    secret: Seq<u8>,
    algorithm: Algorithm,
    other: Seq<u8>,
)
    requires
        secret.len() < hmac_input_limit(),
        content.len() < hmac_input_limit(),
        base64url_decoded(expected_sig) == Some(
            hmac_tag(algorithm.digest_bits(), secret, content),
        ),
    ensures
        signature_verifies(content, expected_sig, secret, Some(algorithm), false),
        signature_verifies(content, expected_sig, other, Some(algorithm), false) <==> other.len()
            < hmac_input_limit() && hmac_tag(algorithm.digest_bits(), other, content) == hmac_tag(
            algorithm.digest_bits(),
            secret,
            content,
        ),
{
}

} // verus!
