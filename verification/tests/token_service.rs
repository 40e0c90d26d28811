use ebook_backend::auth::{authorize, generate_token, verify_token};
use ebook_backend::config::Config;
use ebook_backend::errors::ServiceError;

fn test_config() -> Config {
    Config {
        host: "127.0.0.1".to_string(),
        port: 8080,
        database_url: "postgres://localhost/test".to_string(),
        jwt_secret: "SECRET-REDACTED".to_string(),
        jwt_expires_in: 86400,
        book_storage_path: "./storage/books".to_string(),
    }
}

fn bearer(token: &str) -> Vec<u8> {
    format!("Bearer {}", token).into_bytes()
}

#[test]
fn validate_after_issue_returns_same_subject() {
    let config = test_config();
    let user_id: u128 = 0x0123_4567_89ab_cdef_0123_4567_89ab_cdef;
    let now: i64 = 1_700_000_000;
    let token = generate_token(user_id, &config, now as usize).expect("token issued");
    let claims = verify_token(&token, &config, now).expect("fresh token validates");
    assert_eq!(claims.sub, uuid::Uuid::from_u128(user_id).to_string());
    assert_eq!(claims.iat, now as usize);
    assert_eq!(claims.exp, (now + 86400) as usize);
}

#[test]
fn validate_past_expiry_fails_with_invalid_token() {
    let config = test_config();
    let user_id: u128 = 42;
    let now: i64 = 1_700_000_000;
    let token = generate_token(user_id, &config, now as usize).expect("token issued");
    let at_expiry = verify_token(&token, &config, now + 86400);
    assert_eq!(at_expiry.unwrap_err(), ServiceError::InvalidToken);
    let past_expiry = verify_token(&token, &config, now + 86401);
    assert_eq!(past_expiry.unwrap_err(), ServiceError::InvalidToken);
    let just_before = verify_token(&token, &config, now + 86399);
    assert!(just_before.is_ok());
}

#[test]
fn tampered_token_fails() {
    let config = test_config();
    let now: i64 = 1_700_000_000;
    let token = generate_token(7, &config, now as usize).expect("token issued");
    let mut tampered = token.clone();
    tampered.push('x');
    assert_eq!(
        verify_token(&tampered, &config, now).unwrap_err(),
        ServiceError::InvalidToken
    );
    let other_secret = Config {
        jwt_secret: "SECRET-REDACTED-2".to_string(),
        ..test_config()
    };
    assert_eq!(
        verify_token(&token, &other_secret, now).unwrap_err(),
        ServiceError::InvalidToken
    );
}

#[test]
fn guard_classifies_headers() {
    let config = test_config();
    let now: i64 = 1_700_000_000;
    assert_eq!(
        authorize(None, &config, now).unwrap_err(),
        ServiceError::MissingAuth
    );
    let not_text: Vec<u8> = vec![66, 101, 97, 114, 101, 114, 32, 0x07];
    assert_eq!(
        authorize(Some(&not_text), &config, now).unwrap_err(),
        ServiceError::MalformedAuth
    );
    let wrong_scheme = b"Basic dXNlcjpwYXNz".to_vec();
    assert_eq!(
        authorize(Some(&wrong_scheme), &config, now).unwrap_err(),
        ServiceError::BadScheme
    );
    let garbage = bearer("not.a.token");
    assert_eq!(
        authorize(Some(&garbage), &config, now).unwrap_err(),
        ServiceError::InvalidToken
    );
}

#[test]
fn guard_maps_valid_token_to_user_id() {
    let config = test_config();
    let now: i64 = 1_700_000_000;
    let user_id: u128 = 0xfeed_beef_feed_beef_feed_beef_feed_beef;
    let token = generate_token(user_id, &config, now as usize).expect("token issued");
    let header = bearer(&token);
    assert_eq!(authorize(Some(&header), &config, now).unwrap(), user_id);
    assert_eq!(
        authorize(Some(&header), &config, now + 86400).unwrap_err(),
        ServiceError::InvalidToken
    );
}

#[test]
fn error_status_codes_follow_the_taxonomy() {
    assert_eq!(ServiceError::MissingAuth.status_code(), 401);
    assert_eq!(ServiceError::MalformedAuth.status_code(), 401);
    assert_eq!(ServiceError::BadScheme.status_code(), 401);
    assert_eq!(ServiceError::InvalidToken.status_code(), 401);
    assert_eq!(ServiceError::CorruptClaims.status_code(), 500);
    assert_eq!(ServiceError::InvalidCredentials.status_code(), 401);
    assert_eq!(ServiceError::BadRequest.status_code(), 400);
    assert_eq!(ServiceError::NotFound.status_code(), 404);
    assert_eq!(ServiceError::StorageError.status_code(), 500);
    assert_eq!(ServiceError::MissingAuth.message(), "No authorization header");
    assert_eq!(ServiceError::InvalidToken.message(), "Invalid token");
}

#[test]
fn non_uuid_subject_is_a_server_side_fault() {
    let config = test_config();
    let now: i64 = 1_700_000_000;
    let mut m = serde_json::Map::new();
    m.insert(
        "sub".to_string(),
        serde_json::Value::String("not-a-uuid".to_string()),
    );
    m.insert("iat".to_string(), serde_json::Value::from(now as u64));
    m.insert("exp".to_string(), serde_json::Value::from((now + 3600) as u64));
    let token = jsonwebtoken::encode(
        &jsonwebtoken::Header::default(),
        &serde_json::Value::Object(m),
        &jsonwebtoken::EncodingKey::from_secret(config.jwt_secret.as_bytes()),
    )
    .unwrap();
    let err = authorize(Some(&bearer(&token)), &config, now).unwrap_err();
    assert_eq!(err, ServiceError::CorruptClaims);
    assert_eq!(err.status_code(), 500);
}
