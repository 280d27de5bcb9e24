use als_api::claims::Claims;
use als_api::error::AccountError;
use als_api::jwt::{issue_access_token, issue_access_token_at, validate_jwt, validate_jwt_at, HEADER};

fn sample_claims() -> Claims {
    Claims {
        sub: "al\"ice\\".to_string(),
        uid: -5,
        exp: 1000,
        iat: 100,
        iss: "i".to_string(),
        aud: "a\n".to_string(),
    }
}

#[test]
fn payload_has_fixed_member_order() {
    let bytes = sample_claims().to_payload();
    assert_eq!(
        String::from_utf8(bytes).unwrap(),
        "{\"sub\":\"al\\\"ice\\\\\",\"uid\":-5,\"exp\":1000,\"iat\":100,\"iss\":\"i\",\"aud\":\"a\\n\"}"
    );
}

#[test]
fn payload_reads_back() {
    let c = sample_claims();
    let back = Claims::from_payload(&c.to_payload()).unwrap();
    assert_eq!(back.sub, c.sub);
    assert_eq!(back.uid, -5);
    assert_eq!(back.exp, 1000);
    assert_eq!(back.iat, 100);
    assert_eq!(back.iss, "i");
    assert_eq!(back.aud, "a\n");
}

#[test]
fn payload_rejects_other_layouts() {
    assert!(Claims::from_payload(b"{\"sub\":\"a\", \"uid\":1,\"exp\":2,\"iat\":1,\"iss\":\"i\",\"aud\":\"a\"}").is_none());
    assert!(Claims::from_payload(b"{\"sub\":\"a\",\"uid\":01,\"exp\":2,\"iat\":1,\"iss\":\"i\",\"aud\":\"a\"}").is_none());
    assert!(Claims::from_payload(b"{\"sub\":\"a\",\"uid\":1,\"exp\":2,\"iat\":1,\"iss\":\"i\",\"aud\":\"a\"}x").is_none());
    assert!(Claims::from_payload(b"").is_none());
}

#[test]
fn token_has_three_segments_and_fixed_header() {
    let t = issue_access_token_at("alice", 1, "secret", 1_700_000_000).unwrap();
    let parts: Vec<&str> = t.split('.').collect();
    assert_eq!(parts.len(), 3);
    assert_eq!(parts[0], HEADER);
    assert_ne!(parts[1], "");
    assert!(!parts[1].contains('{'));
    assert_eq!(parts[2].len(), 43);
}

#[test]
fn token_is_a_standard_hs256_jwt() {
    let t = issue_access_token_at("alice", 7, "secret", 1_700_000_000).unwrap();
    let mut validation = jsonwebtoken::Validation::new(jsonwebtoken::Algorithm::HS256);
    validation.validate_exp = false;
    validation.validate_aud = false;
    let data = jsonwebtoken::decode::<serde_json::Value>(
        &t,
        &jsonwebtoken::DecodingKey::from_secret(b"secret"),
        &validation,
    )
    .unwrap();
    assert_eq!(data.claims["sub"], "alice");
    assert_eq!(data.claims["uid"], 7);
    assert_eq!(data.claims["iat"], 1_700_000_000u64);
    assert_eq!(data.claims["exp"], 1_700_000_900u64);
    assert_eq!(data.claims["iss"], "knowledge tracing api");
    assert_eq!(data.claims["aud"], "adapt math desktop-app");
    let header = jsonwebtoken::decode_header(&t).unwrap();
    assert_eq!(header.alg, jsonwebtoken::Algorithm::HS256);
}

#[test]
fn token_round_trip_before_expiry() {
    let t = issue_access_token_at("bob", 3, "k", 5000).unwrap();
    let c = validate_jwt_at(&t, "k", 5899).unwrap();
    assert_eq!(c.sub, "bob");
    assert_eq!(c.uid, 3);
    assert_eq!(c.iat, 5000);
    assert_eq!(c.exp, 5900);
    assert_eq!(c.iss, "knowledge tracing api");
    assert_eq!(c.aud, "adapt math desktop-app");
}

#[test]
fn token_expires_at_exp() {
    let t = issue_access_token_at("bob", 3, "k", 5000).unwrap();
    assert!(matches!(validate_jwt_at(&t, "k", 5900), Err(AccountError::Authentication(_))));
    assert!(matches!(validate_jwt_at(&t, "k", 5901), Err(AccountError::Authentication(_))));
}

#[test]
fn token_under_other_secret_is_refused() {
    let t = issue_access_token_at("bob", 3, "k", 5000).unwrap();
    assert!(matches!(validate_jwt_at(&t, "other", 5001), Err(AccountError::Authentication(_))));
}

#[test]
fn flipped_signature_is_refused() {
    let t = issue_access_token_at("bob", 3, "k", 5000).unwrap();
    let mut bytes = t.into_bytes();
    let last = bytes.len() - 1;
    bytes[last] = if bytes[last] == b'A' { b'B' } else { b'A' };
    let tampered = String::from_utf8(bytes).unwrap();
    assert!(matches!(validate_jwt_at(&tampered, "k", 5001), Err(AccountError::Authentication(_))));
}

#[test]
fn tampered_payload_is_refused() {
    let t = issue_access_token_at("bob", 3, "k", 5000).unwrap();
    let other = issue_access_token_at("eve", 3, "k", 5000).unwrap();
    let parts: Vec<&str> = t.split('.').collect();
    let other_parts: Vec<&str> = other.split('.').collect();
    let forged = format!("{}.{}.{}", parts[0], other_parts[1], parts[2]);
    assert!(matches!(validate_jwt_at(&forged, "k", 5001), Err(AccountError::Authentication(_))));
}

#[test]
fn malformed_tokens_are_invalid() {
    assert!(matches!(validate_jwt_at("garbage", "k", 1), Err(AccountError::InvalidToken(_))));
    assert!(matches!(validate_jwt_at("a.b", "k", 1), Err(AccountError::InvalidToken(_))));
    assert!(matches!(validate_jwt_at("a.b.c.d", "k", 1), Err(AccountError::InvalidToken(_))));
    assert!(matches!(validate_jwt_at("a.b.c", "k", 1), Err(AccountError::InvalidToken(_))));
    assert!(matches!(validate_jwt_at("", "k", 1), Err(AccountError::InvalidToken(_))));
}

#[test]
fn expiry_that_does_not_fit_is_refused() {
    assert!(matches!(
        issue_access_token_at("bob", 3, "k", usize::MAX - 899),
        Err(AccountError::TokenCreation(_))
    ));
    assert!(issue_access_token_at("bob", 3, "k", usize::MAX - 900).is_ok());
}

#[test]
fn token_issued_now_validates_now() {
    let t = issue_access_token("carol", 11, "s3").unwrap();
    let c = validate_jwt(&t, "s3").unwrap();
    assert_eq!(c.sub, "carol");
    assert_eq!(c.uid, 11);
    assert_eq!(c.exp, c.iat + 900);
}

#[test]
fn signed_token_with_bad_payload_is_invalid() {
    let message = format!("{}.{}", HEADER, "bm90IGpzb24");
    let sig = jsonwebtoken::crypto::sign(
        message.as_bytes(),
        &jsonwebtoken::EncodingKey::from_secret(b"k"),
        jsonwebtoken::Algorithm::HS256,
    )
    .unwrap();
    let token = format!("{}.{}", message, sig);
    assert!(matches!(validate_jwt_at(&token, "k", 1), Err(AccountError::InvalidToken(_))));
    let unsigned = format!("{}.{}", message, "AAAA");
    assert!(matches!(validate_jwt_at(&unsigned, "k", 1), Err(AccountError::Authentication(_))));
}

#[test]
fn control_characters_use_serde_json_escapes() {
    let c = Claims {
        sub: "\u{8}\t\n\u{c}\r\u{1}".to_string(),
        uid: 0,
        exp: 0,
        iat: 0,
        iss: String::new(),
        aud: String::new(),
    };
    let text = String::from_utf8(c.to_payload()).unwrap();
    assert!(text.starts_with("{\"sub\":\"\\b\\t\\n\\f\\r\\u0001\""));
    let parsed: serde_json::Value = serde_json::from_str(&text).unwrap();
    assert_eq!(parsed["sub"], c.sub.as_str());
    assert_eq!(serde_json::to_string(&parsed["sub"]).unwrap(), "\"\\b\\t\\n\\f\\r\\u0001\"");
    assert_eq!(Claims::from_payload(text.as_bytes()).unwrap().sub, c.sub);
}
