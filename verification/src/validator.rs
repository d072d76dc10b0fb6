//! The checks a token must pass before a search is worth starting.

use crate::crypto::{base64url_decoded, decode_base64url};
use crate::jwt::{segments, well_formed};
use crate::text::{same_text, split, texts};
use vstd::prelude::*;
use vstd::utf8::encode_utf8;

verus! {

/// Why a token was refused.
#[derive(Clone, Debug)]
pub enum ValidationError {
    /// Not three non-empty segments.
    InvalidFormat,
    /// The header segment is not base64.
    InvalidBase64,
    /// The decoded header is not JSON.
    InvalidJson,
    /// The header names no algorithm, or one that is not supported; the
    /// name, or `missing`, comes with it.
    InvalidAlgorithm(String),
}

/// What validation finds in a token.
pub enum Verdict {
    Valid,
    InvalidFormat,
    InvalidBase64,
    InvalidJson,
    InvalidAlgorithm(Seq<char>),
}

impl View for ValidationError {
    type V = Verdict;

    open spec fn view(&self) -> Verdict {
        match *self {
            ValidationError::InvalidFormat => Verdict::InvalidFormat,
            ValidationError::InvalidBase64 => Verdict::InvalidBase64,
            ValidationError::InvalidJson => Verdict::InvalidJson,
            ValidationError::InvalidAlgorithm(name) => Verdict::InvalidAlgorithm(name@),
        }
    }
}

impl Verdict {
    /// The text of the message that goes with a refusal; a valid token has
    /// none.
    pub open spec fn message_text(self) -> Seq<char> {
        match self {
            Verdict::Valid => Seq::empty(),
            Verdict::InvalidFormat => "Invalid token format"@,
            Verdict::InvalidBase64 => "Invalid base64 encoding"@,
            Verdict::InvalidJson => "Invalid JSON in header"@,
            Verdict::InvalidAlgorithm(name) => "Invalid or unsupported algorithm: "@ + name,
        }
    }
}

impl ValidationError {
    /// The message that goes with the error.
    pub fn message(&self) -> (text: String)
        ensures
            text@ == self@.message_text(),
    {
        match self {
            ValidationError::InvalidFormat => "Invalid token format".to_owned(),
            ValidationError::InvalidBase64 => "Invalid base64 encoding".to_owned(),
            ValidationError::InvalidJson => "Invalid JSON in header".to_owned(),
            ValidationError::InvalidAlgorithm(name) => {
                let mut text = "Invalid or unsupported algorithm: ".to_owned();
                text.append(name.as_str());
                text
            },
        }
    }
}

/// What a JSON document holds under a key: `None` where the bytes are not
/// one JSON document; `Some(None)` where the document is not an object
/// with a member of that key whose value is a string; else that string.
pub uninterp spec fn json_string_member(document: Seq<u8>, key: Seq<char>) -> Option<
    Option<Seq<char>>,
>;

/// `serde_json::from_slice` into a `serde_json::Value`, then `Value::get`
/// with the key and `Value::as_str` on what it finds. The outer `None`
/// stands for the parser's error.
#[verifier::external_body]
fn read_string_member(document: &[u8], key: &str) -> (member: Option<Option<String>>)
    ensures
        match member {
            Some(Some(text)) => json_string_member(document@, key@) == Some(Some(text@)),
            Some(None) => json_string_member(document@, key@) == Some(None::<Seq<char>>),
            None => json_string_member(document@, key@) is None,
        },
{
    let value: serde_json::Value = serde_json::from_slice(document).ok()?;
    Some(value.get(key).and_then(serde_json::Value::as_str).map(str::to_owned))
}

/// Whether a header may name this algorithm.
pub open spec fn supported_name(name: Seq<char>) -> bool {
    name == "HS256"@ || name == "HS384"@ || name == "HS512"@
}

/// What an `alg` claim, once read, makes of a header.
pub open spec fn claim_verdict(claim: Option<Seq<char>>) -> Verdict {
    match claim {
        Some(name) => if supported_name(name) {
            Verdict::Valid
        } else {
            Verdict::InvalidAlgorithm(name)
        },
        None => Verdict::InvalidAlgorithm("missing"@),
    }
}

/// What the header segment of a token amounts to.
pub open spec fn header_verdict(header: Seq<char>) -> Verdict {
    match base64url_decoded(encode_utf8(header)) {
        None => Verdict::InvalidBase64,
        Some(document) => match json_string_member(document, "alg"@) {
            None => Verdict::InvalidJson,
            Some(claim) => claim_verdict(claim),
        },
    }
}

/// What a token amounts to: its format is judged first, then its header.
pub open spec fn token_verdict(token: Seq<char>) -> Verdict {
    if well_formed(token) {
        header_verdict(segments(token)[0])
    } else {
        Verdict::InvalidFormat
    }
}

/// Judges the `alg` claim read from a header: one of the three supported
/// names passes; any other name, or none, is refused.
pub fn check_claim(claim: Option<String>) -> (checked: Result<bool, ValidationError>)
    ensures
        match checked {
            Ok(valid) => valid && claim_verdict(
                match claim {
                    Some(name) => Some(name@),
                    None => None,
                },
            ) == Verdict::Valid,
            Err(e) => e@ == claim_verdict(
                match claim {
                    Some(name) => Some(name@),
                    None => None,
                },
            ),
        },
{
    match claim {
        Some(name) => {
            if same_text(name.as_str(), "HS256") || same_text(name.as_str(), "HS384") || same_text(
                name.as_str(),
                "HS512",
            ) {
                Ok(true)
            } else {
                Err(ValidationError::InvalidAlgorithm(name))
            }
        },
        None => Err(ValidationError::InvalidAlgorithm("missing".to_owned())),
    }
}

pub struct JwtValidator;

impl JwtValidator {
    /// Accepts a token of three non-empty segments whose header decodes to
    /// JSON that names a supported algorithm; says why any other is refused.
    pub fn validate_token(token: &str) -> (checked: Result<bool, ValidationError>)
        ensures
            match checked {
                Ok(valid) => valid && token_verdict(token@) == Verdict::Valid,
                Err(e) => e@ == token_verdict(token@) && e@ != Verdict::Valid,
            },
    {
        if !Self::validate_format(token) {
            return Err(ValidationError::InvalidFormat);
        }
        Self::validate_header(token)
    }

    /// Whether a token is three dot-separated segments, none of them empty.
    pub fn validate_format(token: &str) -> (valid: bool)
        ensures
            valid == well_formed(token@),
    {
        let parts = split(token, '.');
        assert(parts@.len() == texts(parts@).len());
        if parts.len() != 3 {
            return false;
        }
        assert(texts(parts@)[0] == parts@[0]@);
        assert(texts(parts@)[1] == parts@[1]@);
        assert(texts(parts@)[2] == parts@[2]@);
        !parts[0].as_str().is_empty() && !parts[1].as_str().is_empty() && !parts[2].as_str().is_empty()
    }

    /// Judges the first segment of a token as a header.
    pub fn validate_header(token: &str) -> (checked: Result<bool, ValidationError>)
        ensures
            match checked {
                Ok(valid) => valid && header_verdict(segments(token@)[0]) == Verdict::Valid,
                Err(e) => e@ == header_verdict(segments(token@)[0]) && e@ != Verdict::Valid,
            },
    {
        let parts = split(token, '.');
        assert(parts@.len() == texts(parts@).len());
        proof {
            lemma_split_nonempty(token@);
        }
        assert(texts(parts@)[0] == parts@[0]@);
        let header_bytes = match decode_base64url(parts[0].as_str().as_bytes()) {
            Some(bytes) => bytes,
            None => {
                return Err(ValidationError::InvalidBase64);
            },
        };
        match read_string_member(header_bytes.as_slice(), "alg") {
            Some(claim) => check_claim(claim),
            None => Err(ValidationError::InvalidJson),
        }
    }
}

/// A token has at least one segment.
pub proof fn lemma_split_nonempty(token: Seq<char>)
    ensures
        segments(token).len() >= 1,
    decreases token.len(),
{
    if token.len() > 0 {
        lemma_split_nonempty(token.drop_last());
    }
}

} // verus!
