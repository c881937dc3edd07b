use ferrite_sfu::auth::{verify, AuthError};
use jsonwebtoken::errors::ErrorKind;
use jsonwebtoken::{encode, Algorithm, EncodingKey, Header};
use serde_json::Value;

fn text(value: &str) -> Value {
    Value::String(value.to_string())
}

fn claims(exp: i64) -> serde_json::Map<String, Value> {
    let mut claims = serde_json::Map::new();
    claims.insert("sub".to_string(), text("u1"));
    claims.insert("room".to_string(), text("r1"));
    claims.insert("call_id".to_string(), text("c1"));
    claims.insert("name".to_string(), text("A"));
    claims.insert("exp".to_string(), Value::from(exp));
    claims
}

fn sign(secret: &str, claims: serde_json::Map<String, Value>) -> String {
    encode(
        &Header::new(Algorithm::HS256),
        &Value::Object(claims),
        &EncodingKey::from_secret(secret.as_bytes()),
    )
    .unwrap()
}

fn mint(secret: &str, exp: i64) -> String {
    sign(secret, claims(exp))
}

fn soon() -> i64 {
    std::time::SystemTime::now()
        .duration_since(std::time::UNIX_EPOCH)
        .unwrap()
        .as_secs() as i64
        + 90
}

#[test]
fn accepts_a_token_minted_with_the_shared_secret() {
    let claims = verify(&mint("s3cret", soon()), "s3cret").expect("valid");
    assert_eq!(claims.sub, "u1");
    assert_eq!(claims.room, "r1");
    assert_eq!(claims.call_id, "c1");
}

#[test]
fn rejects_a_different_secret() {
    assert!(verify(&mint("s3cret", soon()), "other").is_err());
}

#[test]
fn rejects_an_expired_token() {
    assert!(verify(&mint("s3cret", 1_000), "s3cret").is_err());
}

/// The whole point of carrying the kind: these two must not look alike in a
/// log, because they are fixed in completely different places.
#[test]
fn distinguishes_a_wrong_secret_from_an_expired_token() {
    let wrong_secret = verify(&mint("s3cret", soon()), "other").unwrap_err();
    let expired = verify(&mint("s3cret", 1_000), "s3cret").unwrap_err();
    assert!(matches!(wrong_secret, AuthError::Invalid(ErrorKind::InvalidSignature)));
    assert!(matches!(expired, AuthError::Invalid(ErrorKind::ExpiredSignature)));
}

#[test]
fn carries_every_claim() {
    let exp = soon();
    let mut all = claims(exp);
    all.insert("avatar_url".to_string(), text("https://example.com/a.png"));
    let claims = verify(&sign("s3cret", all), "s3cret").expect("valid");
    assert_eq!(claims.name, "A");
    assert_eq!(claims.avatar_url, "https://example.com/a.png");
    assert_eq!(claims.exp, exp);
}

#[test]
fn name_and_avatar_may_be_left_out() {
    let mut few = claims(soon());
    few.remove("name");
    let claims = verify(&sign("s3cret", few), "s3cret").expect("valid");
    assert_eq!(claims.name, "");
    assert_eq!(claims.avatar_url, "");
}

#[test]
fn blanks_around_a_token_do_not_matter() {
    let token = format!(" \t{}\r\n", mint("s3cret", soon()));
    assert_eq!(verify(&token, "s3cret").expect("valid").sub, "u1");
}

#[test]
fn a_text_that_is_no_token_is_invalid() {
    assert!(matches!(
        verify("not-a-token", "s3cret").unwrap_err(),
        AuthError::Invalid(ErrorKind::InvalidToken)
    ));
}

#[test]
fn an_empty_claim_is_incomplete() {
    for name in ["sub", "room", "call_id"] {
        let mut empty = claims(soon());
        empty.insert(name.to_string(), text(""));
        assert!(
            matches!(verify(&sign("s3cret", empty), "s3cret").unwrap_err(), AuthError::IncompleteClaims),
            "{name}"
        );
    }
}

#[test]
fn a_missing_or_malformed_claim_is_invalid() {
    for name in ["sub", "room", "call_id", "exp"] {
        let mut missing = claims(soon());
        missing.remove(name);
        assert!(
            matches!(
                verify(&sign("s3cret", missing), "s3cret").unwrap_err(),
                AuthError::Invalid(ErrorKind::Json(_))
            ),
            "{name} missing"
        );
    }
    for name in ["sub", "room", "call_id", "name", "avatar_url"] {
        let mut malformed = claims(soon());
        malformed.insert(name.to_string(), Value::from(7));
        assert!(
            matches!(
                verify(&sign("s3cret", malformed), "s3cret").unwrap_err(),
                AuthError::Invalid(ErrorKind::Json(_))
            ),
            "{name} malformed"
        );
    }
    let mut fraction = claims(soon());
    fraction.insert("exp".to_string(), Value::from(1.5));
    assert!(matches!(
        verify(&sign("s3cret", fraction), "s3cret").unwrap_err(),
        AuthError::Invalid(ErrorKind::Json(_))
    ));
}

#[test]
fn a_token_signed_otherwise_is_refused() {
    let token = encode(
        &Header::new(Algorithm::HS512),
        &Value::Object(claims(soon())),
        &EncodingKey::from_secret(b"s3cret"),
    )
    .unwrap();
    assert!(matches!(
        verify(&token, "s3cret").unwrap_err(),
        AuthError::Invalid(ErrorKind::InvalidAlgorithm)
    ));
}
