use jwt_crackng::crypto::{decode_base64url, tag_matches, verify_hmac, verify_hmac_base64, Algorithm};
use jwt_crackng::jwt::{
    algorithm_from_upper, parse_algorithm, parse_token, verify_signature, verify_with, JwtError,
    JwtParts,
};
use jwt_crackng::validator::{check_claim, JwtValidator, ValidationError};

const CONTENT: &str = "eyJhbGciOiJIUzI1NiJ9.eyJ1c2VyIjoxfQ";
const SIG_256: &str = "kwyaQ5G3UMQLzVEwEeupzUsYwkI3O-hpKoNsTtoNlhs";
const SIG_384: &str = "8KZUb-OfrUI0O3cr8Mn2e3Y8EM2eeh-gzLFrgjXxOoU3S6X5CK8SYuv6aVUOWlEX";
const SIG_512: &str =
    "qd-5k1ooCMSOxPkJUVpNhXB-lA4rILqJBqR0bGHomvR3x-SUSGBkUlxKlr6Vtyyz7meOl6WnoJqSHFqJFJDt_A";

fn parts(sig: &str) -> JwtParts {
    JwtParts { content: CONTENT.to_string(), expected_sig: sig.to_string() }
}

#[test]
fn parse_token_splits_three_segments() {
    let token = format!("{}.{}", CONTENT, SIG_256);
    let parsed = parse_token(&token).unwrap();
    assert_eq!(parsed.content, CONTENT);
    assert_eq!(parsed.expected_sig, SIG_256);
}

#[test]
fn parse_token_refuses_empty_segments() {
    for token in ["..", "a..c", ".b.c", "a.b.", "a..", "..c"] {
        assert!(matches!(parse_token(token), Err(JwtError::InvalidFormat)));
    }
}

#[test]
fn parse_token_refuses_other_segment_counts() {
    assert!(matches!(parse_token("abc.def"), Err(JwtError::InvalidFormat)));
    assert!(matches!(parse_token(""), Err(JwtError::InvalidFormat)));
    assert!(matches!(parse_token("abc"), Err(JwtError::InvalidFormat)));
    assert!(matches!(parse_token("a.b.c.d"), Err(JwtError::InvalidFormat)));
}

#[test]
fn jwt_error_messages() {
    assert_eq!(JwtError::InvalidFormat.message(), "Invalid token format");
    assert_eq!(JwtError::InvalidBase64.message(), "Invalid base64 encoding");
}

#[test]
fn algorithm_names_and_aliases() {
    assert_eq!(parse_algorithm("HS256"), Some(Algorithm::HS256));
    assert_eq!(parse_algorithm("hs384"), Some(Algorithm::HS384));
    assert_eq!(parse_algorithm("Hs512"), Some(Algorithm::HS512));
    assert_eq!(parse_algorithm("HMACSHA256"), Some(Algorithm::HS256));
    assert_eq!(parse_algorithm("hmacsha384"), Some(Algorithm::HS384));
    assert_eq!(parse_algorithm("HmacSha512"), Some(Algorithm::HS512));
    assert_eq!(parse_algorithm("RS256"), None);
    assert_eq!(parse_algorithm(""), None);
    assert_eq!(parse_algorithm("HS2560"), None);
    assert_eq!(algorithm_from_upper("HS256"), Some(Algorithm::HS256));
    assert_eq!(algorithm_from_upper("hs256"), None);
}

#[test]
fn base64url_decoding() {
    assert_eq!(decode_base64url(b"YWJj"), Some(b"abc".to_vec()));
    assert_eq!(decode_base64url(b""), Some(Vec::new()));
    assert_eq!(decode_base64url(b"YQ"), Some(b"a".to_vec()));
    assert_eq!(decode_base64url(b"-_8"), Some(vec![0xfb, 0xff]));
    assert_eq!(decode_base64url(b"YQ=="), None);
    assert_eq!(decode_base64url(b"+/8"), None);
    assert_eq!(decode_base64url(b"a"), None);
    assert_eq!(decode_base64url(b"a b"), None);
}

#[test]
fn hmac_of_known_values() {
    let tag = [
        0xeb, 0x14, 0xf1, 0x7c, 0x9f, 0x05, 0x64, 0x79, 0xf1, 0x47, 0xad, 0xcf, 0x80, 0x20, 0xd2,
        0x79, 0x14, 0xf1, 0xe5, 0x97, 0x1f, 0x04, 0x9e, 0x75, 0xbf, 0x21, 0xa6, 0x69, 0xcb, 0xd7,
        0x47, 0xe2,
    ];
    assert!(verify_hmac(Algorithm::HS256, b"abc", b"msg", &tag));
    assert!(!verify_hmac(Algorithm::HS256, b"abd", b"msg", &tag));
    assert!(!verify_hmac(Algorithm::HS256, b"abc", b"msh", &tag));
    assert!(!verify_hmac(Algorithm::HS384, b"abc", b"msg", &tag));
    assert!(!verify_hmac(Algorithm::HS256, b"abc", b"msg", &tag[..31]));
    assert!(!verify_hmac(Algorithm::HS256, b"abc", b"msg", b""));
    assert!(verify_hmac_base64(Algorithm::HS256, "YWJj", b"msg", &tag));
    assert!(!verify_hmac_base64(Algorithm::HS256, "abc", b"msg", &tag));
    assert!(!verify_hmac_base64(Algorithm::HS256, "YWJj=", b"msg", &tag));
}

#[test]
fn tags_compare_by_content() {
    assert!(tag_matches(b"", b""));
    assert!(tag_matches(b"ab", b"ab"));
    assert!(!tag_matches(b"ab", b"ac"));
    assert!(!tag_matches(b"ab", b"abc"));
}

#[test]
fn known_secret_verifies_under_each_algorithm() {
    assert!(verify_signature(&parts(SIG_256), "abc", "HS256", false));
    assert!(verify_signature(&parts(SIG_384), "abc", "HS384", false));
    assert!(verify_signature(&parts(SIG_512), "abc", "HS512", false));
    assert!(verify_signature(&parts(SIG_256), "abc", "hmacsha256", false));
    assert!(verify_with(&parts(SIG_512), "abc", Some(Algorithm::HS512), false));
}

#[test]
fn other_secrets_do_not_verify() {
    let jwt = parts(SIG_256);
    for other in ["", "a", "ab", "abd", "ABC", "abc ", "abcd", "cba", "secret", "YWJj"] {
        assert!(!verify_signature(&jwt, other, "HS256", false));
    }
}

#[test]
fn wrong_algorithm_does_not_verify() {
    assert!(!verify_signature(&parts(SIG_256), "abc", "HS384", false));
    assert!(!verify_signature(&parts(SIG_384), "abc", "HS256", false));
    assert!(!verify_signature(&parts(SIG_256), "abc", "RS256", false));
    assert!(!verify_with(&parts(SIG_256), "abc", None, false));
}

#[test]
fn base64_secret_is_decoded_before_use() {
    let jwt = parts(SIG_256);
    assert!(verify_signature(&jwt, "YWJj", "HS256", true));
    assert!(!verify_signature(&jwt, "abc", "HS256", true));
    assert!(!verify_signature(&jwt, "YWJj==", "HS256", true));
    assert!(!verify_signature(&jwt, "a", "HS256", true));
}

#[test]
fn undecodable_signature_never_verifies() {
    let jwt = parts("not*base64");
    assert!(!verify_signature(&jwt, "abc", "HS256", false));
}

#[test]
fn validate_format_wants_three_non_empty_segments() {
    assert!(JwtValidator::validate_format("a.b.c"));
    assert!(!JwtValidator::validate_format("a.b"));
    assert!(!JwtValidator::validate_format("a.b.c.d"));
    assert!(!JwtValidator::validate_format("a..c"));
    assert!(!JwtValidator::validate_format(".b.c"));
    assert!(!JwtValidator::validate_format("a.b."));
    assert!(!JwtValidator::validate_format(""));
}

#[test]
fn validate_token_accepts_supported_headers() {
    let token = format!("{}.{}", CONTENT, SIG_256);
    assert!(matches!(JwtValidator::validate_token(&token), Ok(true)));
    assert!(matches!(JwtValidator::validate_token("eyJhbGciOiJIUzM4NCJ9.e30.c2ln"), Ok(true)));
    assert!(matches!(JwtValidator::validate_header("eyJhbGciOiJIUzI1NiJ9"), Ok(true)));
}

#[test]
fn validate_token_names_each_failure() {
    assert!(matches!(JwtValidator::validate_token("abc.def"), Err(ValidationError::InvalidFormat)));
    assert!(matches!(JwtValidator::validate_token("a..c"), Err(ValidationError::InvalidFormat)));
    assert!(matches!(JwtValidator::validate_token("a*.b.c"), Err(ValidationError::InvalidBase64)));
    assert!(matches!(
        JwtValidator::validate_token("bm90IGpzb24.b.c"),
        Err(ValidationError::InvalidJson)
    ));
    match JwtValidator::validate_token("eyJhbGciOiJub25lIn0.b.c") {
        Err(ValidationError::InvalidAlgorithm(name)) => assert_eq!(name, "none"),
        _ => panic!("an unsupported algorithm must be refused"),
    }
    match JwtValidator::validate_token("eyJ0eXAiOiJKV1QifQ.b.c") {
        Err(ValidationError::InvalidAlgorithm(name)) => assert_eq!(name, "missing"),
        _ => panic!("a header without alg must be refused"),
    }
    match JwtValidator::validate_token("eyJhbGciOjV9.b.c") {
        Err(ValidationError::InvalidAlgorithm(name)) => assert_eq!(name, "missing"),
        _ => panic!("an alg that is no string must be refused"),
    }
}

#[test]
fn header_names_are_case_sensitive_and_take_no_alias() {
    assert!(matches!(check_claim(Some("HS512".to_string())), Ok(true)));
    match check_claim(Some("hs256".to_string())) {
        Err(ValidationError::InvalidAlgorithm(name)) => assert_eq!(name, "hs256"),
        _ => panic!("a lower-case name must be refused"),
    }
    match check_claim(Some("HMACSHA256".to_string())) {
        Err(ValidationError::InvalidAlgorithm(name)) => assert_eq!(name, "HMACSHA256"),
        _ => panic!("an alias must be refused"),
    }
    match check_claim(None) {
        Err(ValidationError::InvalidAlgorithm(name)) => assert_eq!(name, "missing"),
        _ => panic!("a missing name must be refused"),
    }
}

#[test]
fn validation_messages() {
    assert_eq!(ValidationError::InvalidFormat.message(), "Invalid token format");
    assert_eq!(ValidationError::InvalidBase64.message(), "Invalid base64 encoding");
    assert_eq!(ValidationError::InvalidJson.message(), "Invalid JSON in header");
    assert_eq!(
        ValidationError::InvalidAlgorithm("none".to_string()).message(),
        "Invalid or unsupported algorithm: none"
    );
}
