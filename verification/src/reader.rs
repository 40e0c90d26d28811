//! Reader endpoints: saving and reading per-book progress, and the
//! decision core of content serving.
//!
//! Every operation here runs behind the authorization guard. Content
//! serving resolves the book's format and stored path and counts one
//! page read as a best-effort side effect; the byte streaming itself is
//! plain file I/O and lives with the surrounding process. The
//! per-format "processing" of the served files is a byte passthrough,
//! so the format types here carry only the labels and placeholder
//! metadata.

use vstd::prelude::*;
use vstd::string::StringExecFns;

use crate::analytics::{
    spec_day, day_of_timestamp, upsert_fits, upserted, AnalyticsRecord, AnalyticsStore,
};
use crate::auth::{authorize, guarded_outcome, opt_view, parse_uuid_str, parsed_uuid};
use crate::catalog::{BookFormat, Book, Catalog};
use crate::config::Config;
use crate::errors::ServiceError;
use crate::progress::{default_progress, saved_progress, ProgressStore, ReadingProgress};

verus! {

/// A progress-save request body.
pub struct ReadingProgressRequest {
    pub current_page: i32,
    pub total_pages: i32,
}

/// Failures of EPUB handling.
#[derive(Debug)]
pub enum EpubError {
    IoError(String),
    ProcessingError(String),
}

/// Placeholder EPUB metadata; real extraction is out of scope.
#[derive(Debug)]
pub struct EpubMetadata {
    pub title: String,
    pub author: String,
    pub page_count: u32,
}

/// Failures of MOBI handling.
#[derive(Debug)]
pub enum MobiError {
    IoError(String),
    ProcessingError(String),
}

/// Placeholder MOBI metadata; real extraction is out of scope.
#[derive(Debug)]
pub struct MobiMetadata {
    pub title: String,
    pub author: String,
    pub page_count: u32,
}

/// Failures of PDF handling.
#[derive(Debug)]
pub enum PdfError {
    IoError(String),
    ProcessingError(String),
}

/// The placeholder metadata EPUB extraction reports.
pub fn get_epub_metadata() -> (m: EpubMetadata)
    ensures
        m.title@ == "Unknown Title"@,
        m.author@ == "Unknown Author"@,
        m.page_count == 0,
{
    EpubMetadata {
        title: String::from_str("Unknown Title"),
        author: String::from_str("Unknown Author"),
        page_count: 0,
    }
}

/// The placeholder metadata MOBI extraction reports.
pub fn get_mobi_metadata() -> (m: MobiMetadata)
    ensures
        m.title@ == "Unknown Title"@,
        m.author@ == "Unknown Author"@,
        m.page_count == 0,
{
    MobiMetadata {
        title: String::from_str("Unknown Title"),
        author: String::from_str("Unknown Author"),
        page_count: 0,
    }
}

/// The rough page estimate PDF handling reports for a file of this
/// size: one page per 5000 bytes, at least one.
pub open spec fn spec_estimated_pages(len: usize) -> u32 {
    (if len / 5000 > 1 {
        (len / 5000) as int
    } else {
        1
    }) as u32
}

/// Page-count estimation for a PDF of the given byte length.
pub fn get_pdf_page_count(len: usize) -> (r: u32)
    ensures
        r == spec_estimated_pages(len),
{
    let pages = len / 5000;
    let pages = if pages > 1 {
        pages
    } else {
        1
    };
    #[verifier::truncate]
    (pages as u32)
}

/// The content type a format is served under.
pub fn content_type(format: BookFormat) -> (r: &'static str)
    ensures
        format is PDF ==> r@ == "application/pdf"@,
        format is EPUB ==> r@ == "application/epub+zip"@,
        format is MOBI ==> r@ == "application/x-mobipocket-ebook"@,
{
    match format {
        BookFormat::PDF => "application/pdf",
        BookFormat::EPUB => "application/epub+zip",
        BookFormat::MOBI => "application/x-mobipocket-ebook",
    }
}

/// What a progress save does for an authenticated user: a malformed
/// book id is rejected, an unknown book is `NotFound`, negative pages
/// are rejected, and otherwise the single row for the pair is upserted
/// with the derived completion flag and returned.
pub open spec fn save_progress_outcome(
    cat: Map<u128, Book>,
    old_m: Map<(u128, u128), ReadingProgress>,
    new_m: Map<(u128, u128), ReadingProgress>,
    r: Result<ReadingProgress, ServiceError>,
    uid: u128,
    book_id_str: Seq<char>,
    current_page: i32,
    total_pages: i32,
    now: i64,
) -> bool {
    match parsed_uuid(book_id_str) {
        None => r == Err::<ReadingProgress, ServiceError>(ServiceError::BadRequest) && new_m
            == old_m,
        Some(bid) => {
            if !cat.contains_key(bid) {
                r == Err::<ReadingProgress, ServiceError>(ServiceError::NotFound) && new_m == old_m
            } else if current_page < 0 || total_pages < 0 {
                r == Err::<ReadingProgress, ServiceError>(ServiceError::BadRequest) && new_m
                    == old_m
            } else {
                r == Ok::<ReadingProgress, ServiceError>(
                    saved_progress(uid, bid, current_page, total_pages, now),
                ) && new_m == old_m.insert(
                    (uid, bid),
                    saved_progress(uid, bid, current_page, total_pages, now),
                )
            }
        },
    }
}

/// The progress-save endpoint: guard, book-id parse, existence check
/// against the catalog, then the atomic upsert. Any failure leaves the
/// store untouched.
pub fn save_reading_progress(
    progress: &mut ProgressStore,
    catalog: &Catalog,
    header: Option<&Vec<u8>>,
    config: &Config,
    now: i64,
    book_id: &String,
    body: &ReadingProgressRequest,
) -> (r: Result<ReadingProgress, ServiceError>)
    ensures
        r matches Err(_) ==> final(progress)@ == old(progress)@,
        header is None ==> r == Err::<ReadingProgress, ServiceError>(ServiceError::MissingAuth),
        ({
            let old_m = old(progress)@;
            let new_m = final(progress)@;
            guarded_outcome(
                opt_view(header),
                config.jwt_secret@,
                now,
                |e: ServiceError| r == Err::<ReadingProgress, ServiceError>(e),
                |uid: u128|
                    save_progress_outcome(
                        catalog@,
                        old_m,
                        new_m,
                        r,
                        uid,
                        book_id@,
                        body.current_page,
                        body.total_pages,
                        now,
                    ),
            )
        }),
{
    let uid = match authorize(header, config, now) {
        Ok(uid) => uid,
        Err(e) => {
            return Err(e);
        },
    };
    let bid = match parse_uuid_str(book_id.as_str()) {
        Some(bid) => bid,
        None => {
            return Err(ServiceError::BadRequest);
        },
    };
    if !catalog.contains_book(bid) {
        return Err(ServiceError::NotFound);
    }
    progress.save(uid, bid, body.current_page, body.total_pages, now)
}

/// What a progress read returns for an authenticated user: the stored
/// row verbatim, or the synthesized default when none exists.
pub open spec fn get_progress_outcome(
    m: Map<(u128, u128), ReadingProgress>,
    r: Result<ReadingProgress, ServiceError>,
    uid: u128,
    book_id_str: Seq<char>,
    now: i64,
) -> bool {
    match parsed_uuid(book_id_str) {
        None => r == Err::<ReadingProgress, ServiceError>(ServiceError::BadRequest),
        Some(bid) => r == Ok::<ReadingProgress, ServiceError>(
            if m.contains_key((uid, bid)) {
                m[(uid, bid)]
            } else {
                default_progress(uid, bid, now)
            },
        ),
    }
}

/// The progress-read endpoint: guard, book-id parse, then a read-only
/// lookup; an absent row answers with the default, writing nothing.
pub fn get_reading_progress(
    progress: &ProgressStore,
    header: Option<&Vec<u8>>,
    config: &Config,
    now: i64,
    book_id: &String,
) -> (r: Result<ReadingProgress, ServiceError>)
    ensures
        header is None ==> r == Err::<ReadingProgress, ServiceError>(ServiceError::MissingAuth),
        guarded_outcome(
            opt_view(header),
            config.jwt_secret@,
            now,
            |e: ServiceError| r == Err::<ReadingProgress, ServiceError>(e),
            |uid: u128| get_progress_outcome(progress@, r, uid, book_id@, now),
        ),
{
    let uid = match authorize(header, config, now) {
        Ok(uid) => uid,
        Err(e) => {
            return Err(e);
        },
    };
    let bid = match parse_uuid_str(book_id.as_str()) {
        Some(bid) => bid,
        None => {
            return Err(ServiceError::BadRequest);
        },
    };
    Ok(progress.get(uid, bid, now))
}

/// What content serving does for an authenticated user: resolve the
/// book's format and stored path, and count one page read for
/// (user, book, today) best-effort — an overflowing counter is simply
/// left as it was, never failing the request.
pub open spec fn content_outcome(
    cat: Map<u128, Book>,
    old_m: Map<(u128, u128, i64), AnalyticsRecord>,
    new_m: Map<(u128, u128, i64), AnalyticsRecord>,
    r: Result<(BookFormat, String), ServiceError>,
    uid: u128,
    book_id_str: Seq<char>,
    now: i64,
) -> bool {
    match parsed_uuid(book_id_str) {
        None => r == Err::<(BookFormat, String), ServiceError>(ServiceError::BadRequest) && new_m
            == old_m,
        Some(bid) => {
            if !cat.contains_key(bid) {
                r == Err::<(BookFormat, String), ServiceError>(ServiceError::NotFound) && new_m
                    == old_m
            } else {
                &&& (r matches Ok(fp) && fp.0 == cat[bid].format && fp.1@ == cat[bid].file_path@)
                &&& new_m == if upsert_fits(old_m, (uid, bid, spec_day(now)), 1, 0) {
                    upserted(old_m, (uid, bid, spec_day(now)), 1, 0)
                } else {
                    old_m
                }
            }
        },
    }
}

/// The content endpoint's decision core: guard, book lookup, analytics
/// side effect. The caller streams the bytes at the returned path under
/// the returned format's content type.
pub fn get_book_content(
    catalog: &Catalog,
    analytics: &mut AnalyticsStore,
    header: Option<&Vec<u8>>,
    config: &Config,
    now: i64,
    book_id: &String,
) -> (r: Result<(BookFormat, String), ServiceError>)
    ensures
        r matches Err(_) ==> final(analytics)@ == old(analytics)@,
        header is None ==> r == Err::<(BookFormat, String), ServiceError>(
            ServiceError::MissingAuth,
        ),
        ({
            let old_m = old(analytics)@;
            let new_m = final(analytics)@;
            guarded_outcome(
                opt_view(header),
                config.jwt_secret@,
                now,
                |e: ServiceError| r == Err::<(BookFormat, String), ServiceError>(e),
                |uid: u128| content_outcome(catalog@, old_m, new_m, r, uid, book_id@, now),
            )
        }),
{
    let uid = match authorize(header, config, now) {
        Ok(uid) => uid,
        Err(e) => {
            return Err(e);
        },
    };
    let bid = match parse_uuid_str(book_id.as_str()) {
        Some(bid) => bid,
        None => {
            return Err(ServiceError::BadRequest);
        },
    };
    let fp = match catalog.book_format_path(bid) {
        Some(fp) => fp,
        None => {
            return Err(ServiceError::NotFound);
        },
    };
    let day = day_of_timestamp(now);
    let _logged = analytics.record(uid, bid, day, 1, 0);
    Ok(fp)
}

} // verus!
