//! Analytics aggregator: accumulating counters per (user, book, day).
//!
//! `record` atomically inserts a row with the given deltas or adds them
//! in place to the existing row — values only ever grow by accumulation,
//! never wholesale overwrite. A delta that would overflow the stored
//! counters is the store-failure case and leaves the row untouched.
//! `record_bulk` applies a batch with per-entry tolerance: a bad book id
//! skips the entry, a bad timestamp falls back to "now", a failing
//! upsert is skipped — and the surviving entries land together.
//! The read side sums a user's counters, coercing a failed (overflowing)
//! sum to zero rather than failing the request.

use vstd::prelude::*;

use crate::auth::{authorize, guarded_outcome, opt_view, parse_uuid_str, parsed_uuid};
use crate::config::Config;
use crate::errors::ServiceError;
use crate::progress::{spec_books_read, ProgressStore};
use crate::rows::{
    distinct_keys, lemma_distinct_prefix, lemma_map_sum_empty, lemma_map_sum_insert,
    lemma_row_map_contains, lemma_row_map_finite, lemma_row_map_index, lemma_row_map_len,
    lemma_row_map_push, lemma_row_map_update, map_sum, row_map,
};

verus! {

/// A single-session analytics report: one book, one sitting.
pub struct ReadingAnalytics {
    pub book_id: String,
    pub pages_read: i32,
    pub reading_time_seconds: i32,
}

/// One entry of a bulk analytics batch; carries its own timestamp.
pub struct BulkAnalytics {
    pub book_id: String,
    pub pages_read: i32,
    pub reading_time_seconds: i32,
    pub timestamp: String,
}

/// The aggregate a user's stats query returns.
#[derive(Clone, Copy, Debug, PartialEq, Eq, Structural)]
pub struct UserStats {
    pub books_read: i64,
    pub total_pages: i64,
    pub total_reading_time: i64,
}

/// One accumulating row, keyed by (user, book, calendar day).
#[derive(Clone, Copy, Debug, PartialEq, Eq, Structural)]
pub struct AnalyticsRecord {
    pub user_id: u128,
    pub book_id: u128,
    pub session_date: i64,
    pub pages_read: i32,
    pub reading_time_seconds: i32,
}

/// The timestamp (seconds since the Unix epoch) an RFC 3339 string
/// denotes, if well formed; a function of the string alone.
pub uninterp spec fn parsed_rfc3339(s: Seq<char>) -> Option<i64>;

/// Relies on chrono::DateTime::parse_from_rfc3339: parsing is a
/// deterministic function of the string; the timestamp is the denoted
/// instant in seconds.
#[verifier::external_body]
fn parse_rfc3339(s: &str) -> (r: Option<i64>)
    ensures
        r == parsed_rfc3339(s@),
{
    match chrono::DateTime::parse_from_rfc3339(s) {
        Ok(dt) => Some(dt.timestamp()),
        Err(_) => None,
    }
}

/// The UTC calendar day a timestamp falls on, as days since the epoch:
/// the floor of `ts / 86400`.
pub open spec fn spec_day(ts: i64) -> i64 {
    if ts >= 0 {
        ((ts as int) / 86400) as i64
    } else {
        (-1 - ((-1 - ts as int) / 86400)) as i64
    }
}

/// The day number is the floor of `ts / 86400`: every timestamp falls
/// inside its day's 86400-second window.
pub proof fn lemma_day_brackets_timestamp(ts: i64)
    ensures
        86400 * (spec_day(ts) as int) <= ts as int,
        (ts as int) < 86400 * (spec_day(ts) as int + 1),
{
    if ts >= 0 {
        vstd::arithmetic::div_mod::lemma_fundamental_div_mod(ts as int, 86400);
        vstd::arithmetic::div_mod::lemma_mod_bound(ts as int, 86400);
    } else {
        let n = -1 - ts as int;
        vstd::arithmetic::div_mod::lemma_fundamental_div_mod(n, 86400);
        vstd::arithmetic::div_mod::lemma_mod_bound(n, 86400);
    }
}

/// Day-number computation used to key analytics rows.
pub fn day_of_timestamp(ts: i64) -> (day: i64)
    ensures
        day == spec_day(ts),
{
    if ts >= 0 {
        let q: u64 = (ts as u64) / 86400;
        q as i64
    } else {
        let n: u64 = (-(ts + 1)) as u64;
        let q: u64 = n / 86400;
        -1 - (q as i64)
    }
}

/// The uniqueness key of an analytics row.
pub open spec fn analytics_key(r: AnalyticsRecord) -> (u128, u128, i64) {
    (r.user_id, r.book_id, r.session_date)
}

/// The key extractor as a value, for the row-map lemmas.
pub open spec fn akey() -> spec_fn(AnalyticsRecord) -> (u128, u128, i64) {
    |r: AnalyticsRecord| analytics_key(r)
}

/// The pages counter currently stored under a key, zero when absent.
pub open spec fn prior_pages(m: Map<(u128, u128, i64), AnalyticsRecord>, k: (u128, u128, i64)) -> int {
    if m.contains_key(k) {
        m[k].pages_read as int
    } else {
        0
    }
}

/// The seconds counter currently stored under a key, zero when absent.
pub open spec fn prior_secs(m: Map<(u128, u128, i64), AnalyticsRecord>, k: (u128, u128, i64)) -> int {
    if m.contains_key(k) {
        m[k].reading_time_seconds as int
    } else {
        0
    }
}

/// Whether accumulating these deltas stays within the stored counters'
/// range; when it does not, the upsert is the storage-failure case.
pub open spec fn upsert_fits(
    m: Map<(u128, u128, i64), AnalyticsRecord>,
    k: (u128, u128, i64),
    pages: i32,
    secs: i32,
) -> bool {
    &&& i32::MIN <= prior_pages(m, k) + pages <= i32::MAX
    &&& i32::MIN <= prior_secs(m, k) + secs <= i32::MAX
}

/// The row an upsert leaves under the key: initial values on first
/// insert (the priors are zero), in-place addition afterwards.
pub open spec fn upserted(
    m: Map<(u128, u128, i64), AnalyticsRecord>,
    k: (u128, u128, i64),
    pages: i32,
    secs: i32,
) -> Map<(u128, u128, i64), AnalyticsRecord> {
    m.insert(
        k,
        AnalyticsRecord {
            user_id: k.0,
            book_id: k.1,
            session_date: k.2,
            pages_read: (prior_pages(m, k) + pages) as i32,
            reading_time_seconds: (prior_secs(m, k) + secs) as i32,
        },
    )
}

/// The pages weight of a user's rows, for the read-side sum.
pub open spec fn pages_weight(user_id: u128) -> spec_fn((u128, u128, i64), AnalyticsRecord) -> int {
    |k: (u128, u128, i64), r: AnalyticsRecord| if k.0 == user_id {
        r.pages_read as int
    } else {
        0int
    }
}

/// The seconds weight of a user's rows, for the read-side sum.
pub open spec fn secs_weight(user_id: u128) -> spec_fn((u128, u128, i64), AnalyticsRecord) -> int {
    |k: (u128, u128, i64), r: AnalyticsRecord| if k.0 == user_id {
        r.reading_time_seconds as int
    } else {
        0int
    }
}

/// Total pages recorded for a user, over all books and days.
pub open spec fn spec_total_pages(m: Map<(u128, u128, i64), AnalyticsRecord>, user_id: u128) -> int {
    map_sum(m, pages_weight(user_id))
}

/// Total reading time recorded for a user, over all books and days.
pub open spec fn spec_total_secs(m: Map<(u128, u128, i64), AnalyticsRecord>, user_id: u128) -> int {
    map_sum(m, secs_weight(user_id))
}

/// The analytics table: at most one row per (user, book, day).
pub struct AnalyticsStore {
    rows: Vec<AnalyticsRecord>,
}

impl View for AnalyticsStore {
    type V = Map<(u128, u128, i64), AnalyticsRecord>;

    closed spec fn view(&self) -> Map<(u128, u128, i64), AnalyticsRecord> {
        row_map(self.rows@, akey())
    }
}

impl AnalyticsStore {
    #[verifier::type_invariant]
    spec fn inv(self) -> bool {
        distinct_keys(self.rows@, akey())
    }

    /// An empty store: nothing recorded yet.
    pub fn new() -> (r: AnalyticsStore)
        ensures
            r@ == Map::<(u128, u128, i64), AnalyticsRecord>::empty(),
    {
        AnalyticsStore { rows: Vec::new() }
    }

    /// The number of (user, book, day) rows.
    pub fn len(&self) -> (n: usize)
        ensures
            n == self@.dom().len(),
            self@.dom().finite(),
    {
        proof {
            use_type_invariant(self);
            lemma_row_map_len(self.rows@, akey());
        }
        self.rows.len()
    }

    /// The row stored under (user, book, day), if any.
    pub fn lookup(&self, user_id: u128, book_id: u128, day: i64) -> (r: Option<AnalyticsRecord>)
        ensures
            r == if self@.contains_key((user_id, book_id, day)) {
                Some(self@[(user_id, book_id, day)])
            } else {
                None::<AnalyticsRecord>
            },
    {
        match self.find(user_id, book_id, day) {
            Some(i) => Some(self.rows[i]),
            None => None,
        }
    }

    fn find(&self, user_id: u128, book_id: u128, day: i64) -> (r: Option<usize>)
        ensures
            match r {
                Some(i) => i < self.rows@.len() && analytics_key(self.rows@[i as int]) == (
                    user_id,
                    book_id,
                    day,
                ) && self@.contains_key((user_id, book_id, day)) && self@[(user_id, book_id, day)]
                    == self.rows@[i as int],
                None => !self@.contains_key((user_id, book_id, day)),
            },
    {
        proof {
            use_type_invariant(self);
        }
        let n = self.rows.len();
        let mut i: usize = 0;
        while i < n
            invariant
                n == self.rows@.len(),
                i <= n,
                forall|j: int|
                    0 <= j < i ==> analytics_key(#[trigger] self.rows@[j]) != (
                        user_id,
                        book_id,
                        day,
                    ),
            decreases n - i,
        {
            let row = &self.rows[i];
            if row.user_id == user_id && row.book_id == book_id && row.session_date == day {
                proof {
                    use_type_invariant(self);
                    lemma_row_map_index(self.rows@, akey(), i as int);
                }
                return Some(i);
            }
            i += 1;
        }
        proof {
            lemma_row_map_contains(self.rows@, akey(), (user_id, book_id, day));
        }
        None
    }

    /// Atomic conditional upsert with in-place addition: absent key →
    /// insert the deltas as initial values; present key → add them to
    /// the stored counters. A delta that would overflow the counters is
    /// the storage-failure case: the error is reported and the store is
    /// untouched. No other key changes either way.
    pub fn record(
        &mut self,
        user_id: u128,
        book_id: u128,
        day: i64,
        pages: i32,
        secs: i32,
    ) -> (r: Result<(), ServiceError>)
        ensures
            upsert_fits(old(self)@, (user_id, book_id, day), pages, secs) ==> r == Ok::<
                (),
                ServiceError,
            >(()) && final(self)@ == upserted(old(self)@, (user_id, book_id, day), pages, secs),
            !upsert_fits(old(self)@, (user_id, book_id, day), pages, secs) ==> r == Err::<
                (),
                ServiceError,
            >(ServiceError::StorageError) && final(self)@ == old(self)@,
    {
        proof {
            use_type_invariant(&*self);
        }
        let idx = self.find(user_id, book_id, day);
        let ghost old_rows = self.rows@;
        match idx {
            Some(i) => {
                let prior = self.rows[i];
                let new_pages: i64 = prior.pages_read as i64 + pages as i64;
                let new_secs: i64 = prior.reading_time_seconds as i64 + secs as i64;
                if new_pages < i32::MIN as i64 || new_pages > i32::MAX as i64 || new_secs
                    < i32::MIN as i64 || new_secs > i32::MAX as i64 {
                    return Err(ServiceError::StorageError);
                }
                let row = AnalyticsRecord {
                    user_id,
                    book_id,
                    session_date: day,
                    pages_read: new_pages as i32,
                    reading_time_seconds: new_secs as i32,
                };
                proof {
                    lemma_row_map_update(old_rows, akey(), i as int, row);
                }
                let mut rows: Vec<AnalyticsRecord> = Vec::new();
                core::mem::swap(&mut self.rows, &mut rows);
                rows[i] = row;
                proof {
                    assert forall|p: int, q: int|
                        0 <= p < q < rows@.len() implies analytics_key(#[trigger] rows@[p])
                        != analytics_key(#[trigger] rows@[q]) by {
                        if p == i {
                            assert(rows@[q] == old_rows[q]);
                        } else if q == i {
                            assert(rows@[p] == old_rows[p]);
                        } else {
                            assert(rows@[p] == old_rows[p]);
                            assert(rows@[q] == old_rows[q]);
                        }
                    }
                }
                core::mem::swap(&mut self.rows, &mut rows);
                Ok(())
            },
            None => {
                let row = AnalyticsRecord {
                    user_id,
                    book_id,
                    session_date: day,
                    pages_read: pages,
                    reading_time_seconds: secs,
                };
                proof {
                    lemma_row_map_push(old_rows, akey(), row);
                    lemma_row_map_contains(old_rows, akey(), (user_id, book_id, day));
                }
                let mut rows: Vec<AnalyticsRecord> = Vec::new();
                core::mem::swap(&mut self.rows, &mut rows);
                rows.push(row);
                proof {
                    assert forall|p: int, q: int|
                        0 <= p < q < rows@.len() implies analytics_key(#[trigger] rows@[p])
                        != analytics_key(#[trigger] rows@[q]) by {
                        if q == old_rows.len() {
                            assert(rows@[p] == old_rows[p]);
                            lemma_row_map_contains(old_rows, akey(), analytics_key(old_rows[p]));
                        } else {
                            assert(rows@[p] == old_rows[p]);
                            assert(rows@[q] == old_rows[q]);
                        }
                    }
                }
                core::mem::swap(&mut self.rows, &mut rows);
                Ok(())
            },
        }
    }

    /// Both read-side sums for a user, each coerced to zero when it does
    /// not fit the reported 64-bit counters (the fail-soft policy:
    /// a failed sub-aggregation reads as zero, it never fails the
    /// request).
    pub fn totals_for_user(&self, user_id: u128) -> (totals: (i64, i64))
        ensures
            totals.0 as int == clamp_i64(spec_total_pages(self@, user_id)),
            totals.1 as int == clamp_i64(spec_total_secs(self@, user_id)),
    {
        proof {
            use_type_invariant(self);
            lemma_map_sum_empty(pages_weight(user_id));
            lemma_map_sum_empty(secs_weight(user_id));
            assert(self.rows@.take(0) =~= Seq::<AnalyticsRecord>::empty());
        }
        let n = self.rows.len();
        let mut pages: i128 = 0;
        let mut secs: i128 = 0;
        let mut i: usize = 0;
        while i < n
            invariant
                n == self.rows@.len(),
                i <= n,
                distinct_keys(self.rows@, akey()),
                -(i as int) * 0x8000_0000 <= pages as int <= (i as int) * 0x8000_0000,
                -(i as int) * 0x8000_0000 <= secs as int <= (i as int) * 0x8000_0000,
                pages as int == map_sum(
                    row_map(self.rows@.take(i as int), akey()),
                    pages_weight(user_id),
                ),
                secs as int == map_sum(
                    row_map(self.rows@.take(i as int), akey()),
                    secs_weight(user_id),
                ),
            decreases n - i,
        {
            proof {
                let prefix = self.rows@.take(i as int);
                let next = self.rows@.take(i + 1 as int);
                assert(next =~= prefix.push(self.rows@[i as int]));
                lemma_row_map_push(prefix, akey(), self.rows@[i as int]);
                lemma_row_map_finite(prefix, akey());
                lemma_distinct_prefix(self.rows@, akey(), i as int);
                lemma_row_map_contains(prefix, akey(), analytics_key(self.rows@[i as int]));
                assert forall|j: int|
                    0 <= j < prefix.len() implies analytics_key(#[trigger] prefix[j])
                    != analytics_key(self.rows@[i as int]) by {
                    assert(prefix[j] == self.rows@[j]);
                }
                lemma_map_sum_insert(
                    row_map(prefix, akey()),
                    pages_weight(user_id),
                    analytics_key(self.rows@[i as int]),
                    self.rows@[i as int],
                );
                lemma_map_sum_insert(
                    row_map(prefix, akey()),
                    secs_weight(user_id),
                    analytics_key(self.rows@[i as int]),
                    self.rows@[i as int],
                );
            }
            let row = &self.rows[i];
            if row.user_id == user_id {
                pages = pages + row.pages_read as i128;
                secs = secs + row.reading_time_seconds as i128;
            }
            i += 1;
        }
        proof {
            assert(self.rows@.take(n as int) =~= self.rows@);
        }
        let total_pages: i64 = if pages >= i64::MIN as i128 && pages <= i64::MAX as i128 {
            pages as i64
        } else {
            0
        };
        let total_secs: i64 = if secs >= i64::MIN as i128 && secs <= i64::MAX as i128 {
            secs as i64
        } else {
            0
        };
        (total_pages, total_secs)
    }

    /// Apply a bulk batch for a user: per-entry tolerance (bad book id →
    /// entry skipped; bad timestamp → "now"; overflowing upsert →
    /// entry skipped), then everything that survived is committed
    /// together. The in-memory commit itself cannot fail, so the batch
    /// always reports success.
    pub fn record_bulk(&mut self, user_id: u128, entries: &Vec<BulkAnalytics>, now: i64) -> (r:
        Result<(), ServiceError>)
        ensures
            r == Ok::<(), ServiceError>(()),
            final(self)@ == apply_bulk(old(self)@, user_id, entries@, now),
    {
        let n = entries.len();
        let mut i: usize = 0;
        while i < n
            invariant
                n == entries@.len(),
                i <= n,
                self@ == apply_bulk(old(self)@, user_id, entries@.take(i as int), now),
            decreases n - i,
        {
            proof {
                assert(entries@.take(i + 1 as int).drop_last() =~= entries@.take(i as int));
                assert(entries@.take(i + 1 as int).last() == entries@[i as int]);
            }
            let e = &entries[i];
            match parse_uuid_str(e.book_id.as_str()) {
                Some(book_id) => {
                    let ts = match parse_rfc3339(e.timestamp.as_str()) {
                        Some(t) => t,
                        None => now,
                    };
                    let day = day_of_timestamp(ts);
                    let outcome = self.record(
                        user_id,
                        book_id,
                        day,
                        e.pages_read,
                        e.reading_time_seconds,
                    );
                },
                None => {},
            }
            i += 1;
        }
        proof {
            assert(entries@.take(n as int) =~= entries@);
        }
        Ok(())
    }
}

/// A 64-bit sum, or zero when it does not fit: the fail-soft coercion.
pub open spec fn clamp_i64(v: int) -> int {
    if i64::MIN <= v <= i64::MAX {
        v
    } else {
        0
    }
}

/// What one bulk entry does to the store: an unparseable book id skips
/// the entry; an unparseable timestamp falls back to the batch's "now";
/// an upsert that would overflow is skipped like any per-entry storage
/// failure.
pub open spec fn apply_entry(
    m: Map<(u128, u128, i64), AnalyticsRecord>,
    user_id: u128,
    e: BulkAnalytics,
    now: i64,
) -> Map<(u128, u128, i64), AnalyticsRecord> {
    match parsed_uuid(e.book_id@) {
        None => m,
        Some(book_id) => {
            let ts = match parsed_rfc3339(e.timestamp@) {
                Some(t) => t,
                None => now,
            };
            let k = (user_id, book_id, spec_day(ts));
            if upsert_fits(m, k, e.pages_read, e.reading_time_seconds) {
                upserted(m, k, e.pages_read, e.reading_time_seconds)
            } else {
                m
            }
        },
    }
}

/// A whole batch, applied in order.
pub open spec fn apply_bulk(
    m: Map<(u128, u128, i64), AnalyticsRecord>,
    user_id: u128,
    entries: Seq<BulkAnalytics>,
    now: i64,
) -> Map<(u128, u128, i64), AnalyticsRecord>
    decreases entries.len(),
{
    if entries.len() == 0 {
        m
    } else {
        apply_entry(apply_bulk(m, user_id, entries.drop_last(), now), user_id, entries.last(), now)
    }
}

/// What a single analytics report does for an authenticated user: a
/// malformed book id is rejected; otherwise the (user, book, today)
/// counters are accumulated atomically, an overflow being the
/// storage-failure case that changes nothing.
pub open spec fn record_outcome(
    old_m: Map<(u128, u128, i64), AnalyticsRecord>,
    new_m: Map<(u128, u128, i64), AnalyticsRecord>,
    r: Result<(), ServiceError>,
    uid: u128,
    book_id_str: Seq<char>,
    pages: i32,
    secs: i32,
    now: i64,
) -> bool {
    match parsed_uuid(book_id_str) {
        None => r == Err::<(), ServiceError>(ServiceError::BadRequest) && new_m == old_m,
        Some(bid) => {
            let k = (uid, bid, spec_day(now));
            if upsert_fits(old_m, k, pages, secs) {
                r == Ok::<(), ServiceError>(()) && new_m == upserted(old_m, k, pages, secs)
            } else {
                r == Err::<(), ServiceError>(ServiceError::StorageError) && new_m == old_m
            }
        },
    }
}

/// The single-report endpoint: guard, book-id parse, then the atomic
/// accumulate for today's row. Any failure leaves the store untouched.
pub fn record_reading_analytics(
    store: &mut AnalyticsStore,
    header: Option<&Vec<u8>>,
    config: &Config,
    now: i64,
    body: &ReadingAnalytics,
) -> (r: Result<(), ServiceError>)
    ensures
        r matches Err(_) ==> final(store)@ == old(store)@,
        header is None ==> r == Err::<(), ServiceError>(ServiceError::MissingAuth),
        ({
            let old_m = old(store)@;
            let new_m = final(store)@;
            guarded_outcome(
                opt_view(header),
                config.jwt_secret@,
                now,
                |e: ServiceError| r == Err::<(), ServiceError>(e),
                |uid: u128|
                    record_outcome(
                        old_m,
                        new_m,
                        r,
                        uid,
                        body.book_id@,
                        body.pages_read,
                        body.reading_time_seconds,
                        now,
                    ),
            )
        }),
{
    let uid = match authorize(header, config, now) {
        Ok(uid) => uid,
        Err(e) => {
            return Err(e);
        },
    };
    let bid = match parse_uuid_str(body.book_id.as_str()) {
        Some(bid) => bid,
        None => {
            return Err(ServiceError::BadRequest);
        },
    };
    let day = day_of_timestamp(now);
    store.record(uid, bid, day, body.pages_read, body.reading_time_seconds)
}

/// The bulk-ingest endpoint: guard, then the whole batch with per-entry
/// tolerance; the surviving entries commit together and the call
/// reports success.
pub fn record_bulk_analytics(
    store: &mut AnalyticsStore,
    header: Option<&Vec<u8>>,
    config: &Config,
    now: i64,
    entries: &Vec<BulkAnalytics>,
) -> (r: Result<(), ServiceError>)
    ensures
        r matches Err(_) ==> final(store)@ == old(store)@,
        header is None ==> r == Err::<(), ServiceError>(ServiceError::MissingAuth),
        ({
            let old_m = old(store)@;
            let new_m = final(store)@;
            guarded_outcome(
                opt_view(header),
                config.jwt_secret@,
                now,
                |e: ServiceError| r == Err::<(), ServiceError>(e),
                |uid: u128| r == Ok::<(), ServiceError>(()) && new_m == apply_bulk(
                    old_m,
                    uid,
                    entries@,
                    now,
                ),
            )
        }),
{
    let uid = match authorize(header, config, now) {
        Ok(uid) => uid,
        Err(e) => {
            return Err(e);
        },
    };
    store.record_bulk(uid, entries, now)
}

/// The stats an authenticated user is answered with: distinct books
/// with progress rows (progress existence defines "read", not analytics
/// volume), and the analytics sums, each independently coerced to zero
/// when it cannot be reported.
pub open spec fn spec_user_stats(
    pm: Map<(u128, u128), crate::progress::ReadingProgress>,
    am: Map<(u128, u128, i64), AnalyticsRecord>,
    uid: u128,
) -> UserStats {
    UserStats {
        books_read: clamp_i64(spec_books_read(pm, uid)) as i64,
        total_pages: clamp_i64(spec_total_pages(am, uid)) as i64,
        total_reading_time: clamp_i64(spec_total_secs(am, uid)) as i64,
    }
}

/// The user-stats endpoint: guard, then three independent read-side
/// aggregations. Reads only.
pub fn get_user_stats(
    progress: &ProgressStore,
    analytics: &AnalyticsStore,
    header: Option<&Vec<u8>>,
    config: &Config,
    now: i64,
) -> (r: Result<UserStats, ServiceError>)
    ensures
        header is None ==> r == Err::<UserStats, ServiceError>(ServiceError::MissingAuth),
        guarded_outcome(
            opt_view(header),
            config.jwt_secret@,
            now,
            |e: ServiceError| r == Err::<UserStats, ServiceError>(e),
            |uid: u128| r == Ok::<UserStats, ServiceError>(
                spec_user_stats(progress@, analytics@, uid),
            ),
        ),
{
    let uid = match authorize(header, config, now) {
        Ok(uid) => uid,
        Err(e) => {
            return Err(e);
        },
    };
    let count = progress.books_read_count(uid);
    let books_read: i64 = if (count as u64) <= (i64::MAX as u64) {
        count as i64
    } else {
        0
    };
    let (total_pages, total_reading_time) = analytics.totals_for_user(uid);
    Ok(UserStats { books_read, total_pages, total_reading_time })
}

} // verus!
