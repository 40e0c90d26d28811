use ebook_backend::config::Config;
use ebook_backend::errors::ServiceError;
use ebook_backend::users::{logout, profile, LoginRequest, RegisterRequest, UserStore};

fn test_config() -> Config {
    Config {
        host: "127.0.0.1".to_string(),
        port: 8080,
        database_url: "postgres://localhost/test".to_string(),
        jwt_secret: "SECRET-REDACTED".to_string(),
        jwt_expires_in: 3600,
        book_storage_path: "./storage/books".to_string(),
    }
}

fn bearer(token: &str) -> Vec<u8> {
    format!("Bearer {}", token).into_bytes()
}

fn register_request() -> RegisterRequest {
    RegisterRequest {
        username: "reader".to_string(),
        email: "reader@example.com".to_string(),
        password: "correct horse battery staple".to_string(),
    }
}

#[test]
fn register_then_login_issues_usable_tokens() {
    let config = test_config();
    let now: i64 = 1_700_000_000;
    let mut users = UserStore::new();
    let reg = users.register(&register_request(), &config, now).unwrap();
    assert_eq!(reg.user.username, "reader");
    assert_eq!(reg.user.email, "reader@example.com");
    assert_eq!(reg.user.created_at, now);
    assert_eq!(users.len(), 1);

    let login = users
        .login(
            &LoginRequest {
                email: "reader@example.com".to_string(),
                password: "correct horse battery staple".to_string(),
            },
            &config,
            now + 10,
        )
        .unwrap();
    assert_eq!(login.user.id, reg.user.id);

    let me = profile(&users, Some(&bearer(&login.token)), &config, now + 20).unwrap();
    assert_eq!(me.id, reg.user.id);
    assert_eq!(me.username, "reader");
}

#[test]
fn duplicate_email_is_rejected_before_writing() {
    let config = test_config();
    let now: i64 = 1_700_000_000;
    let mut users = UserStore::new();
    users.register(&register_request(), &config, now).unwrap();
    let err = users.register(&register_request(), &config, now + 1).unwrap_err();
    assert_eq!(err, ServiceError::BadRequest);
    assert_eq!(users.len(), 1);
}

#[test]
fn login_rejects_wrong_password_and_unknown_email() {
    let config = test_config();
    let now: i64 = 1_700_000_000;
    let mut users = UserStore::new();
    users.register(&register_request(), &config, now).unwrap();
    let wrong = users.login(
        &LoginRequest {
            email: "reader@example.com".to_string(),
            password: "wrong".to_string(),
        },
        &config,
        now,
    );
    assert_eq!(wrong.unwrap_err(), ServiceError::InvalidCredentials);
    let unknown = users.login(
        &LoginRequest {
            email: "ghost@example.com".to_string(),
            password: "whatever".to_string(),
        },
        &config,
        now,
    );
    assert_eq!(unknown.unwrap_err(), ServiceError::InvalidCredentials);
}

#[test]
fn profile_requires_auth_and_an_existing_account() {
    let config = test_config();
    let now: i64 = 1_700_000_000;
    let users = UserStore::new();
    assert_eq!(
        profile(&users, None, &config, now).unwrap_err(),
        ServiceError::MissingAuth
    );
    let stray = ebook_backend::auth::generate_token(424242, &config, now as usize).unwrap();
    assert_eq!(
        profile(&users, Some(&bearer(&stray)), &config, now).unwrap_err(),
        ServiceError::NotFound
    );
}

#[test]
fn logout_is_stateless() {
    assert_eq!(logout(), "Logged out successfully");
}

#[test]
fn password_hash_round_trips_through_verify() {
    let hash = ebook_backend::auth::hash_password("open sesame").unwrap();
    assert_ne!(hash, "open sesame");
    assert!(ebook_backend::auth::verify_password("open sesame", &hash).unwrap());
    assert!(!ebook_backend::auth::verify_password("open says me", &hash).unwrap());
}
