use ebook_backend::errors::ServiceError;
use ebook_backend::progress::ProgressStore;

const USER: u128 = 11;
const BOOK: u128 = 22;

#[test]
fn completion_is_derived_from_pages() {
    let mut store = ProgressStore::new();
    let done = store.save(USER, BOOK, 120, 100, 1000).unwrap();
    assert!(done.completed);
    let part = store.save(USER, BOOK, 99, 100, 1001).unwrap();
    assert!(!part.completed);
    let exact = store.save(USER, BOOK, 100, 100, 1002).unwrap();
    assert!(exact.completed);
    let zero = store.save(USER, BOOK, 0, 0, 1003).unwrap();
    assert!(zero.completed);
}

#[test]
fn negative_pages_are_rejected_and_write_nothing() {
    let mut store = ProgressStore::new();
    assert_eq!(
        store.save(USER, BOOK, -1, 10, 1000).unwrap_err(),
        ServiceError::BadRequest
    );
    assert_eq!(
        store.save(USER, BOOK, 1, -10, 1000).unwrap_err(),
        ServiceError::BadRequest
    );
    assert_eq!(store.len(), 0);
}

#[test]
fn repeated_save_leaves_one_row_with_latest_values() {
    let mut store = ProgressStore::new();
    store.save(USER, BOOK, 10, 300, 1000).unwrap();
    store.save(USER, BOOK, 20, 300, 2000).unwrap();
    let last = store.save(USER, BOOK, 30, 310, 3000).unwrap();
    assert_eq!(store.len(), 1);
    let row = store.get(USER, BOOK, 9999);
    assert_eq!(row, last);
    assert_eq!(row.current_page, 30);
    assert_eq!(row.total_pages, 310);
    assert_eq!(row.last_read_at, 3000);
    assert!(!row.completed);
}

#[test]
fn distinct_pairs_keep_distinct_rows() {
    let mut store = ProgressStore::new();
    store.save(USER, BOOK, 5, 10, 1000).unwrap();
    store.save(USER, BOOK + 1, 7, 10, 1000).unwrap();
    store.save(USER + 1, BOOK, 9, 10, 1000).unwrap();
    assert_eq!(store.len(), 3);
    assert_eq!(store.get(USER, BOOK, 0).current_page, 5);
    assert_eq!(store.get(USER, BOOK + 1, 0).current_page, 7);
    assert_eq!(store.get(USER + 1, BOOK, 0).current_page, 9);
}

#[test]
fn absent_pair_synthesizes_default_without_writing() {
    let mut store = ProgressStore::new();
    let now = 777;
    let row = store.get(USER, BOOK, now);
    assert_eq!(row.current_page, 1);
    assert_eq!(row.total_pages, 0);
    assert!(!row.completed);
    assert_eq!(row.last_read_at, now);
    assert_eq!(row.user_id, USER);
    assert_eq!(row.book_id, BOOK);
    assert_eq!(store.len(), 0);
    store.save(USER, BOOK, 2, 5, 1).unwrap();
    assert_eq!(store.get(USER, BOOK, 999).last_read_at, 1);
}

#[test]
fn books_read_counts_distinct_books_per_user() {
    let mut store = ProgressStore::new();
    store.save(USER, 1, 1, 10, 0).unwrap();
    store.save(USER, 2, 1, 10, 0).unwrap();
    store.save(USER, 2, 5, 10, 0).unwrap();
    store.save(USER + 1, 3, 1, 10, 0).unwrap();
    assert_eq!(store.books_read_count(USER), 2);
    assert_eq!(store.books_read_count(USER + 1), 1);
    assert_eq!(store.books_read_count(USER + 2), 0);
}
