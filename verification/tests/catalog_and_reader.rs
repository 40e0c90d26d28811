use ebook_backend::analytics::{day_of_timestamp, AnalyticsStore};
use ebook_backend::auth::generate_token;
use ebook_backend::catalog::{page_window, Book, BookFormat, Catalog, Category, CategoryStore};
use ebook_backend::config::Config;
use ebook_backend::errors::ServiceError;
use ebook_backend::progress::ProgressStore;
use ebook_backend::reader::{
    content_type, get_book_content, get_epub_metadata, get_mobi_metadata, get_pdf_page_count,
    get_reading_progress, save_reading_progress, ReadingProgressRequest,
};

fn test_config() -> Config {
    Config {
        host: "127.0.0.1".to_string(),
        port: 8080,
        database_url: "postgres://localhost/test".to_string(),
        jwt_secret: "SECRET-REDACTED".to_string(),
        jwt_expires_in: 3600,
        book_storage_path: "./storage/books".to_string(),
    }
}

fn bearer(token: &str) -> Vec<u8> {
    format!("Bearer {}", token).into_bytes()
}

fn sample_book(id: u128, category_id: u128, format: BookFormat) -> Book {
    Book {
        id,
        title: format!("Book {}", id),
        author: "Author".to_string(),
        description: "A book".to_string(),
        cover_image: "cover.png".to_string(),
        category_id,
        format,
        file_path: format!("books/{}.bin", id),
        total_pages: 200,
        published_date: 1_600_000_000,
        created_at: 1_650_000_000,
    }
}

#[test]
fn format_parses_ignoring_ascii_case() {
    assert_eq!(BookFormat::from_str("pdf").unwrap(), BookFormat::PDF);
    assert_eq!(BookFormat::from_str("PDF").unwrap(), BookFormat::PDF);
    assert_eq!(BookFormat::from_str("ePub").unwrap(), BookFormat::EPUB);
    assert_eq!(BookFormat::from_str("MOBI").unwrap(), BookFormat::MOBI);
    let err = BookFormat::from_str("webp").unwrap_err();
    assert_eq!(err, "Unknown book format: webp");
    assert_eq!(BookFormat::PDF.fmt(), "pdf");
    assert_eq!(BookFormat::EPUB.fmt(), "epub");
    assert_eq!(BookFormat::MOBI.fmt(), "mobi");
}

#[test]
fn page_window_defaults_caps_and_offsets() {
    assert_eq!(page_window(None, None), (20, 0));
    assert_eq!(page_window(Some(1), Some(10)), (10, 0));
    assert_eq!(page_window(Some(3), Some(10)), (10, 20));
    assert_eq!(page_window(Some(0), Some(10)), (10, 0));
    assert_eq!(page_window(None, Some(1000)), (100, 0));
    assert_eq!(page_window(Some(2), None), (20, 20));
}

#[test]
fn listing_filters_by_category_and_windows() {
    let mut catalog = Catalog::new();
    for i in 0..10u128 {
        let cat = if i % 2 == 0 { 100 } else { 200 };
        catalog.add_book(sample_book(i, cat, BookFormat::PDF));
    }
    let evens = catalog.list_books(Some(100), None, None);
    assert_eq!(evens, vec![0, 2, 4, 6, 8]);
    let all_page2 = catalog.list_books(None, Some(2), Some(3));
    assert_eq!(all_page2, vec![3, 4, 5]);
    let past_end = catalog.list_books(None, Some(5), Some(3));
    assert!(past_end.is_empty());
    assert_eq!(catalog.count_in_category(100), 5);
    assert_eq!(catalog.count_in_category(300), 0);
}

#[test]
fn add_book_upserts_by_id() {
    let mut catalog = Catalog::new();
    assert!(!catalog.add_book(sample_book(1, 100, BookFormat::PDF)));
    assert!(catalog.add_book(sample_book(1, 100, BookFormat::EPUB)));
    assert_eq!(catalog.len(), 1);
    let (format, path) = catalog.book_format_path(1).unwrap();
    assert_eq!(format, BookFormat::EPUB);
    assert_eq!(path, "books/1.bin");
    assert!(catalog.book_format_path(2).is_none());
    assert_eq!(catalog.book_total_pages(1).unwrap(), 200);
}

#[test]
fn placeholder_metadata_and_page_estimate() {
    let epub = get_epub_metadata();
    assert_eq!(epub.title, "Unknown Title");
    assert_eq!(epub.author, "Unknown Author");
    assert_eq!(epub.page_count, 0);
    let mobi = get_mobi_metadata();
    assert_eq!(mobi.title, "Unknown Title");
    assert_eq!(mobi.page_count, 0);
    assert_eq!(get_pdf_page_count(0), 1);
    assert_eq!(get_pdf_page_count(4999), 1);
    assert_eq!(get_pdf_page_count(10_000), 2);
    assert_eq!(content_type(BookFormat::EPUB), "application/epub+zip");
    assert_eq!(content_type(BookFormat::MOBI), "application/x-mobipocket-ebook");
    assert_eq!(content_type(BookFormat::PDF), "application/pdf");
}

#[test]
fn progress_endpoints_enforce_guard_and_catalog() {
    let config = test_config();
    let now: i64 = 1_700_000_000;
    let user: u128 = 8;
    let book: u128 = 501;
    let mut catalog = Catalog::new();
    catalog.add_book(sample_book(book, 1, BookFormat::PDF));
    let mut progress = ProgressStore::new();
    let body = ReadingProgressRequest { current_page: 50, total_pages: 200 };
    let book_str = uuid::Uuid::from_u128(book).to_string();

    let err = save_reading_progress(
        &mut progress, &catalog, None, &config, now, &book_str, &body,
    )
    .unwrap_err();
    assert_eq!(err, ServiceError::MissingAuth);
    assert_eq!(progress.len(), 0);

    let token = generate_token(user, &config, now as usize).unwrap();
    let header = bearer(&token);

    let err = save_reading_progress(
        &mut progress, &catalog, Some(&header), &config, now, &"zz".to_string(), &body,
    )
    .unwrap_err();
    assert_eq!(err, ServiceError::BadRequest);

    let missing = uuid::Uuid::from_u128(999).to_string();
    let err = save_reading_progress(
        &mut progress, &catalog, Some(&header), &config, now, &missing, &body,
    )
    .unwrap_err();
    assert_eq!(err, ServiceError::NotFound);
    assert_eq!(progress.len(), 0);

    let row = save_reading_progress(
        &mut progress, &catalog, Some(&header), &config, now, &book_str, &body,
    )
    .unwrap();
    assert_eq!(row.user_id, user);
    assert_eq!(row.book_id, book);
    assert_eq!(row.current_page, 50);
    assert!(!row.completed);

    let read_back =
        get_reading_progress(&progress, Some(&header), &config, now + 5, &book_str).unwrap();
    assert_eq!(read_back, row);

    let other = uuid::Uuid::from_u128(777).to_string();
    let default_row =
        get_reading_progress(&progress, Some(&header), &config, now + 9, &other).unwrap();
    assert_eq!(default_row.current_page, 1);
    assert_eq!(default_row.total_pages, 0);
    assert_eq!(default_row.last_read_at, now + 9);
}

#[test]
fn content_resolves_format_and_counts_a_page() {
    let config = test_config();
    let now: i64 = 1_700_000_000;
    let user: u128 = 4;
    let book: u128 = 600;
    let mut catalog = Catalog::new();
    catalog.add_book(sample_book(book, 1, BookFormat::EPUB));
    let mut analytics = AnalyticsStore::new();
    let token = generate_token(user, &config, now as usize).unwrap();
    let header = bearer(&token);
    let book_str = uuid::Uuid::from_u128(book).to_string();

    let (format, path) = get_book_content(
        &catalog, &mut analytics, Some(&header), &config, now, &book_str,
    )
    .unwrap();
    assert_eq!(format, BookFormat::EPUB);
    assert_eq!(path, format!("books/{}.bin", book));
    let row = analytics.lookup(user, book, day_of_timestamp(now)).unwrap();
    assert_eq!(row.pages_read, 1);
    assert_eq!(row.reading_time_seconds, 0);

    let err = get_book_content(&catalog, &mut analytics, None, &config, now, &book_str)
        .unwrap_err();
    assert_eq!(err, ServiceError::MissingAuth);
    assert_eq!(analytics.len(), 1);
}

#[test]
fn search_matches_title_author_and_description_ignoring_case() {
    let mut catalog = Catalog::new();
    let mut moby = sample_book(1, 100, BookFormat::PDF);
    moby.title = "Moby-Dick".to_string();
    moby.author = "Herman Melville".to_string();
    moby.description = "A whale hunt".to_string();
    catalog.add_book(moby);
    let mut emma = sample_book(2, 100, BookFormat::EPUB);
    emma.title = "Emma".to_string();
    emma.author = "Jane Austen".to_string();
    emma.description = "A novel of manners".to_string();
    catalog.add_book(emma);

    let search = |q: &str| catalog.search_books(&q.to_string(), None, None).unwrap();
    assert_eq!(search("moby"), vec![1]);
    assert_eq!(search("MELVILLE"), vec![1]);
    assert_eq!(search("aust"), vec![2]);
    assert_eq!(search("whale"), vec![1]);
    assert_eq!(search("m"), vec![1, 2]);
    assert!(search("tolstoy").is_empty());
    assert_eq!(
        catalog.search_books(&"m".to_string(), Some(2), Some(1)).unwrap(),
        vec![2]
    );
}

#[test]
fn empty_search_query_is_rejected() {
    let mut catalog = Catalog::new();
    catalog.add_book(sample_book(1, 100, BookFormat::PDF));
    let err = catalog.search_books(&String::new(), None, None).unwrap_err();
    assert_eq!(err, ServiceError::BadRequest);
    assert_eq!(err.status_code(), 400);
}

#[test]
fn search_ranks_title_before_author_before_description() {
    let mut catalog = Catalog::new();
    let mut by_description = sample_book(1, 100, BookFormat::PDF);
    by_description.title = "Silence".to_string();
    by_description.author = "Nobody".to_string();
    by_description.description = "all about oceans".to_string();
    catalog.add_book(by_description);
    let mut by_author = sample_book(2, 100, BookFormat::PDF);
    by_author.title = "Quiet".to_string();
    by_author.author = "Ocean Vuong".to_string();
    by_author.description = "poems".to_string();
    catalog.add_book(by_author);
    let mut by_title = sample_book(3, 100, BookFormat::PDF);
    by_title.title = "The Ocean".to_string();
    by_title.author = "Someone".to_string();
    by_title.description = "plain".to_string();
    catalog.add_book(by_title);

    let found = catalog.search_books(&"ocean".to_string(), None, None).unwrap();
    assert_eq!(found, vec![3, 2, 1]);
}

#[test]
fn categories_list_sorted_by_name_and_never_overwrite() {
    let mut categories = CategoryStore::new();
    let fiction = Category {
        id: 2,
        name: "Fiction".to_string(),
        description: "Made-up things".to_string(),
        book_count: 0,
    };
    let biography = Category {
        id: 1,
        name: "Biography".to_string(),
        description: "Lives".to_string(),
        book_count: 0,
    };
    let essays = Category {
        id: 3,
        name: "Essays".to_string(),
        description: "Short pieces".to_string(),
        book_count: 0,
    };
    assert!(categories.add_category(fiction));
    assert!(categories.add_category(biography));
    assert!(categories.add_category(essays));
    assert!(!categories.add_category(Category {
        id: 3,
        name: "Zzz".to_string(),
        description: "ignored".to_string(),
        book_count: 0,
    }));
    assert_eq!(categories.len(), 3);
    assert_eq!(categories.list_categories(), vec![1, 3, 2]);
    let got = categories.get_category(3).unwrap();
    assert_eq!(got.name, "Essays");
    assert!(categories.get_category(9).is_none());
}
