use ebook_backend::analytics::{
    day_of_timestamp, get_user_stats, record_bulk_analytics, record_reading_analytics,
    AnalyticsStore, BulkAnalytics, ReadingAnalytics,
};
use ebook_backend::auth::generate_token;
use ebook_backend::config::Config;
use ebook_backend::errors::ServiceError;
use ebook_backend::progress::ProgressStore;

const USER: u128 = 5;
const BOOK: u128 = 9;

fn test_config() -> Config {
    Config {
        host: "127.0.0.1".to_string(),
        port: 8080,
        database_url: "postgres://localhost/test".to_string(),
        jwt_secret: "SECRET-REDACTED".to_string(),
        jwt_expires_in: 3600,
        book_storage_path: "./storage/books".to_string(),
    }
}

fn bearer(token: &str) -> Vec<u8> {
    format!("Bearer {}", token).into_bytes()
}

#[test]
fn two_records_accumulate_in_one_row() {
    let mut store = AnalyticsStore::new();
    let day = 19_700;
    store.record(USER, BOOK, day, 3, 60).unwrap();
    store.record(USER, BOOK, day, 2, 30).unwrap();
    assert_eq!(store.len(), 1);
    let row = store.lookup(USER, BOOK, day).unwrap();
    assert_eq!(row.pages_read, 5);
    assert_eq!(row.reading_time_seconds, 90);
}

#[test]
fn records_on_different_days_stay_separate() {
    let mut store = AnalyticsStore::new();
    store.record(USER, BOOK, 100, 3, 60).unwrap();
    store.record(USER, BOOK, 101, 2, 30).unwrap();
    assert_eq!(store.len(), 2);
    assert_eq!(store.lookup(USER, BOOK, 100).unwrap().pages_read, 3);
    assert_eq!(store.lookup(USER, BOOK, 101).unwrap().pages_read, 2);
}

#[test]
fn overflowing_accumulation_is_a_storage_error_and_changes_nothing() {
    let mut store = AnalyticsStore::new();
    store.record(USER, BOOK, 1, i32::MAX, 0).unwrap();
    assert_eq!(
        store.record(USER, BOOK, 1, 1, 0).unwrap_err(),
        ServiceError::StorageError
    );
    let row = store.lookup(USER, BOOK, 1).unwrap();
    assert_eq!(row.pages_read, i32::MAX);
    assert_eq!(row.reading_time_seconds, 0);
}

#[test]
fn day_of_timestamp_is_the_utc_day() {
    assert_eq!(day_of_timestamp(0), 0);
    assert_eq!(day_of_timestamp(86399), 0);
    assert_eq!(day_of_timestamp(86400), 1);
    assert_eq!(day_of_timestamp(-1), -1);
    assert_eq!(day_of_timestamp(-86400), -1);
    assert_eq!(day_of_timestamp(-86401), -2);
    let ts = chrono::DateTime::parse_from_rfc3339("2024-01-02T03:04:05Z")
        .unwrap()
        .timestamp();
    assert_eq!(day_of_timestamp(ts), ts.div_euclid(86400));
}

#[test]
fn bulk_skips_invalid_book_id_and_reports_success() {
    let mut store = AnalyticsStore::new();
    let now: i64 = 1_700_000_000;
    let good_book: u128 = 77;
    let entries = vec![
        BulkAnalytics {
            book_id: "not-a-uuid".to_string(),
            pages_read: 100,
            reading_time_seconds: 100,
            timestamp: "2024-01-02T03:04:05Z".to_string(),
        },
        BulkAnalytics {
            book_id: uuid::Uuid::from_u128(good_book).to_string(),
            pages_read: 4,
            reading_time_seconds: 40,
            timestamp: "2024-01-02T03:04:05Z".to_string(),
        },
    ];
    assert!(store.record_bulk(USER, &entries, now).is_ok());
    assert_eq!(store.len(), 1);
    let ts = chrono::DateTime::parse_from_rfc3339("2024-01-02T03:04:05Z")
        .unwrap()
        .timestamp();
    let row = store.lookup(USER, good_book, day_of_timestamp(ts)).unwrap();
    assert_eq!(row.pages_read, 4);
    assert_eq!(row.reading_time_seconds, 40);
}

#[test]
fn bulk_falls_back_to_now_on_bad_timestamp() {
    let mut store = AnalyticsStore::new();
    let now: i64 = 1_700_000_000;
    let book: u128 = 3;
    let entries = vec![BulkAnalytics {
        book_id: uuid::Uuid::from_u128(book).to_string(),
        pages_read: 2,
        reading_time_seconds: 20,
        timestamp: "yesterday-ish".to_string(),
    }];
    store.record_bulk(USER, &entries, now).unwrap();
    let row = store.lookup(USER, book, day_of_timestamp(now)).unwrap();
    assert_eq!(row.pages_read, 2);
}

#[test]
fn stats_combine_progress_rows_and_analytics_sums() {
    let config = test_config();
    let now: i64 = 1_700_000_000;
    let user: u128 = 0xabcd;
    let book_a: u128 = 1;
    let book_b: u128 = 2;
    let mut progress = ProgressStore::new();
    progress.save(user, book_a, 10, 100, now).unwrap();
    progress.save(user, book_b, 20, 100, now).unwrap();
    let mut analytics = AnalyticsStore::new();
    analytics.record(user, book_a, 19_000, 10, 600).unwrap();
    analytics.record(user, book_b, 19_001, 15, 900).unwrap();
    let token = generate_token(user, &config, now as usize).unwrap();
    let header = bearer(&token);
    let stats = get_user_stats(&progress, &analytics, Some(&header), &config, now).unwrap();
    assert_eq!(stats.books_read, 2);
    assert_eq!(stats.total_pages, 25);
    assert_eq!(stats.total_reading_time, 1500);
}

#[test]
fn stats_default_to_zero_for_a_fresh_user() {
    let config = test_config();
    let now: i64 = 1_700_000_000;
    let user: u128 = 123;
    let progress = ProgressStore::new();
    let analytics = AnalyticsStore::new();
    let token = generate_token(user, &config, now as usize).unwrap();
    let header = bearer(&token);
    let stats = get_user_stats(&progress, &analytics, Some(&header), &config, now).unwrap();
    assert_eq!(stats.books_read, 0);
    assert_eq!(stats.total_pages, 0);
    assert_eq!(stats.total_reading_time, 0);
}

#[test]
fn unauthenticated_record_touches_no_store() {
    let config = test_config();
    let now: i64 = 1_700_000_000;
    let mut store = AnalyticsStore::new();
    let body = ReadingAnalytics {
        book_id: uuid::Uuid::from_u128(BOOK).to_string(),
        pages_read: 3,
        reading_time_seconds: 60,
    };
    let err = record_reading_analytics(&mut store, None, &config, now, &body).unwrap_err();
    assert_eq!(err, ServiceError::MissingAuth);
    assert_eq!(err.status_code(), 401);
    assert_eq!(store.len(), 0);
    let header = b"Token abc".to_vec();
    let err = record_reading_analytics(&mut store, Some(&header), &config, now, &body).unwrap_err();
    assert_eq!(err, ServiceError::BadScheme);
    assert_eq!(store.len(), 0);
}

#[test]
fn authenticated_record_lands_on_todays_row() {
    let config = test_config();
    let now: i64 = 1_700_000_000;
    let user: u128 = 31337;
    let mut store = AnalyticsStore::new();
    let token = generate_token(user, &config, now as usize).unwrap();
    let header = bearer(&token);
    let body = ReadingAnalytics {
        book_id: uuid::Uuid::from_u128(BOOK).to_string(),
        pages_read: 3,
        reading_time_seconds: 60,
    };
    record_reading_analytics(&mut store, Some(&header), &config, now, &body).unwrap();
    let row = store.lookup(user, BOOK, day_of_timestamp(now)).unwrap();
    assert_eq!(row.pages_read, 3);
    assert_eq!(row.reading_time_seconds, 60);
    let bad = ReadingAnalytics {
        book_id: "nope".to_string(),
        pages_read: 1,
        reading_time_seconds: 1,
    };
    assert_eq!(
        record_reading_analytics(&mut store, Some(&header), &config, now, &bad).unwrap_err(),
        ServiceError::BadRequest
    );
}

#[test]
fn unauthenticated_bulk_touches_no_store() {
    let config = test_config();
    let mut store = AnalyticsStore::new();
    let entries: Vec<BulkAnalytics> = Vec::new();
    let err =
        record_bulk_analytics(&mut store, None, &config, 1_700_000_000, &entries).unwrap_err();
    assert_eq!(err, ServiceError::MissingAuth);
    assert_eq!(store.len(), 0);
}
