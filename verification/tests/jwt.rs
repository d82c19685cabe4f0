use base64::Engine;
use codex_trace::jwt::{sign, verify, Claims, JwtError};
use hmac::Mac;

const KEY: &[u8] = b"0123456789abcdef0123456789abcdef";
const OTHER_KEY: &[u8] = b"fedcba9876543210fedcba9876543210";

fn claims() -> Claims {
    Claims {
        sub: "6f1d4a3e-0000-4000-8000-000000000001".into(),
        name: "web-ui".into(),
        iat: 1_700_000_000,
    }
}

fn b64(bytes: &[u8]) -> String {
    base64::engine::general_purpose::URL_SAFE_NO_PAD.encode(bytes)
}

#[test]
fn sign_then_verify_roundtrips() {
    let token = sign(&claims(), KEY);
    assert_eq!(verify(&token, KEY).unwrap(), claims());
}

#[test]
fn signature_is_key_bound() {
    let token = sign(&claims(), KEY);
    assert_eq!(verify(&token, OTHER_KEY), Err(JwtError::BadSignature));
}

#[test]
fn tampering_with_the_payload_is_rejected() {
    let token = sign(&claims(), KEY);
    let mut parts: Vec<&str> = token.split('.').collect();
    let forged = b64(br#"{"sub":"6f1d4a3e-0000-4000-8000-000000000001","name":"web-ui","iat":0}"#);
    parts[1] = &forged;
    assert_eq!(verify(&parts.join("."), KEY), Err(JwtError::BadSignature));
}

#[test]
fn alg_none_is_rejected_before_the_payload_is_read() {
    let header = b64(br#"{"alg":"none","typ":"JWT"}"#);
    let payload = b64(br#"{"sub":"6f1d4a3e-0000-4000-8000-000000000001","name":"web-ui","iat":1700000000}"#);
    let token = format!("{header}.{payload}.");
    assert_eq!(verify(&token, KEY), Err(JwtError::UnsupportedAlg));
}

#[test]
fn other_algorithms_are_rejected() {
    let header = b64(br#"{"alg":"HS512","typ":"JWT"}"#);
    let payload = b64(br#"{"sub":"x","name":"y","iat":1}"#);
    assert_eq!(
        verify(&format!("{header}.{payload}.x"), KEY),
        Err(JwtError::UnsupportedAlg)
    );
}

#[test]
fn malformed_tokens_are_rejected_without_panicking() {
    for bad in ["", "onlyonepart", "two.parts", "a.b.c.d", "!!!.!!!.!!!", "...."] {
        assert!(matches!(
            verify(bad, KEY),
            Err(JwtError::Malformed | JwtError::UnsupportedAlg | JwtError::BadSignature)
        ));
    }
}

#[test]
fn a_valid_signature_over_a_non_claims_payload_is_bad_claims() {
    let header = b64(br#"{"alg":"HS256","typ":"JWT"}"#);
    let payload = b64(br#"{"not":"claims"}"#);
    let signing_input = format!("{header}.{payload}");
    let mut m = hmac::Hmac::<sha2::Sha256>::new_from_slice(KEY).unwrap();
    m.update(signing_input.as_bytes());
    let sig = b64(&m.finalize().into_bytes());
    assert_eq!(
        verify(&format!("{signing_input}.{sig}"), KEY),
        Err(JwtError::BadClaims)
    );
}

#[test]
fn a_truncated_signature_is_rejected() {
    let token = sign(&claims(), KEY);
    let (rest, _) = token.rsplit_once('.').unwrap();
    assert_eq!(
        verify(&format!("{rest}.AAAA"), KEY),
        Err(JwtError::BadSignature)
    );
}

#[test]
fn error_messages_never_leak_the_key() {
    let shown = JwtError::BadSignature.message();
    assert!(!shown.contains(std::str::from_utf8(KEY).unwrap()));
}

#[test]
fn the_token_has_the_fixed_header_and_the_serde_json_payload() {
    let token = sign(&claims(), KEY);
    let parts: Vec<&str> = token.split('.').collect();
    assert_eq!(parts.len(), 3);
    assert_eq!(parts[0], b64(br#"{"alg":"HS256","typ":"JWT"}"#));
    assert_eq!(
        parts[1],
        b64(br#"{"sub":"6f1d4a3e-0000-4000-8000-000000000001","name":"web-ui","iat":1700000000}"#)
    );
}

#[test]
fn claims_with_escapes_and_negative_iat_roundtrip() {
    let c = Claims { sub: "a\"b\\c\n".into(), name: "ünï \u{1}".into(), iat: i64::MIN };
    let token = sign(&c, KEY);
    assert_eq!(verify(&token, KEY).unwrap(), c);
}

#[test]
fn an_empty_key_still_signs_and_verifies() {
    let token = sign(&claims(), b"");
    assert_eq!(verify(&token, b"").unwrap(), claims());
    assert_eq!(verify(&token, KEY), Err(JwtError::BadSignature));
}

#[test]
fn every_error_has_its_message() {
    assert_eq!(JwtError::Malformed.message(), "malformed token");
    assert_eq!(JwtError::UnsupportedAlg.message(), "unsupported token algorithm");
    assert_eq!(JwtError::BadSignature.message(), "bad token signature");
    assert_eq!(JwtError::BadClaims.message(), "bad token claims");
}
