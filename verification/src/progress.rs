//! Progress tracker: an upsert state machine for per-(user, book)
//! reading position.
//!
//! A pair is either in the implicit initial state (no row) or carries a
//! row {current_page, total_pages, completed, last_read_at}. `save`
//! atomically inserts or overwrites the single row for its key, deriving
//! `completed`; `get` reads a row or synthesizes a non-persisted default.
//! The store's meaning is a finite map keyed by (user id, book id), so
//! "exactly one row per pair" holds by construction and is carried by
//! the uniqueness invariant of the backing vector.

use vstd::prelude::*;

use crate::errors::ServiceError;
use crate::rows::{
    distinct_keys, lemma_distinct_prefix, lemma_map_sum_empty, lemma_map_sum_insert,
    lemma_row_map_contains, lemma_row_map_finite, lemma_row_map_index, lemma_row_map_len,
    lemma_row_map_push, lemma_row_map_update, map_sum, row_map,
};

verus! {

/// One per-(user, book) reading-state row.
#[derive(Clone, Copy, Debug, PartialEq, Eq, Structural)]
pub struct ReadingProgress {
    pub book_id: u128,
    pub user_id: u128,
    pub current_page: i32,
    pub total_pages: i32,
    pub last_read_at: i64,
    pub completed: bool,
}

/// The uniqueness key of a progress row.
pub open spec fn progress_key(r: ReadingProgress) -> (u128, u128) {
    (r.user_id, r.book_id)
}

/// The key extractor as a value, for the row-map lemmas.
pub open spec fn pkey() -> spec_fn(ReadingProgress) -> (u128, u128) {
    |r: ReadingProgress| progress_key(r)
}

/// The row a successful `save` writes: the caller's pages, the call
/// time, and the derived completion flag — `completed` holds exactly
/// when `current_page >= total_pages`.
pub open spec fn saved_progress(
    user_id: u128,
    book_id: u128,
    current_page: i32,
    total_pages: i32,
    now: i64,
) -> ReadingProgress {
    ReadingProgress {
        book_id,
        user_id,
        current_page,
        total_pages,
        last_read_at: now,
        completed: current_page >= total_pages,
    }
}

/// The read-only default `get` synthesizes when no row exists. Its
/// `last_read_at` is the call time — a deliberate placeholder, preserved
/// as externally observable behaviour even though no activity happened.
pub open spec fn default_progress(user_id: u128, book_id: u128, now: i64) -> ReadingProgress {
    ReadingProgress {
        book_id,
        user_id,
        current_page: 1,
        total_pages: 0,
        last_read_at: now,
        completed: false,
    }
}

/// The weight that counts a user's rows: one per (user, book) key.
pub open spec fn book_weight(user_id: u128) -> spec_fn((u128, u128), ReadingProgress) -> int {
    |k: (u128, u128), r: ReadingProgress| if k.0 == user_id {
        1int
    } else {
        0int
    }
}

/// The number of distinct books a user has any progress row for.
pub open spec fn spec_books_read(m: Map<(u128, u128), ReadingProgress>, user_id: u128) -> int {
    map_sum(m, book_weight(user_id))
}

/// The progress table: at most one row per (user, book).
pub struct ProgressStore {
    rows: Vec<ReadingProgress>,
}

impl View for ProgressStore {
    type V = Map<(u128, u128), ReadingProgress>;

    closed spec fn view(&self) -> Map<(u128, u128), ReadingProgress> {
        row_map(self.rows@, pkey())
    }
}

impl ProgressStore {
    #[verifier::type_invariant]
    spec fn inv(self) -> bool {
        distinct_keys(self.rows@, pkey())
    }

    /// An empty store: every pair is in its initial state.
    pub fn new() -> (r: ProgressStore)
        ensures
            r@ == Map::<(u128, u128), ReadingProgress>::empty(),
    {
        ProgressStore { rows: Vec::new() }
    }

    /// The number of rows; one per tracked (user, book) pair.
    pub fn len(&self) -> (n: usize)
        ensures
            n == self@.dom().len(),
            self@.dom().finite(),
    {
        proof {
            use_type_invariant(self);
            lemma_row_map_len(self.rows@, pkey());
        }
        self.rows.len()
    }

    fn find(&self, user_id: u128, book_id: u128) -> (r: Option<usize>)
        ensures
            match r {
                Some(i) => i < self.rows@.len() && progress_key(self.rows@[i as int]) == (
                    user_id,
                    book_id,
                ) && self@.contains_key((user_id, book_id)) && self@[(user_id, book_id)]
                    == self.rows@[i as int],
                None => !self@.contains_key((user_id, book_id)),
            },
    {
        proof {
            use_type_invariant(self);
        }
        let n = self.rows.len();
        let mut i: usize = 0;
        while i < n
            invariant
                n == self.rows@.len(),
                i <= n,
                forall|j: int|
                    0 <= j < i ==> progress_key(#[trigger] self.rows@[j]) != (user_id, book_id),
            decreases n - i,
        {
            let row = &self.rows[i];
            if row.user_id == user_id && row.book_id == book_id {
                proof {
                    use_type_invariant(self);
                    lemma_row_map_index(self.rows@, pkey(), i as int);
                }
                return Some(i);
            }
            i += 1;
        }
        proof {
            lemma_row_map_contains(self.rows@, pkey(), (user_id, book_id));
        }
        None
    }

    /// Read a pair's progress. An existing row is returned verbatim; an
    /// absent pair yields the synthesized default — without writing.
    pub fn get(&self, user_id: u128, book_id: u128, now: i64) -> (r: ReadingProgress)
        ensures
            self@.contains_key((user_id, book_id)) ==> r == self@[(user_id, book_id)],
            !self@.contains_key((user_id, book_id)) ==> r == default_progress(
                user_id,
                book_id,
                now,
            ),
    {
        match self.find(user_id, book_id) {
            Some(i) => self.rows[i],
            None => ReadingProgress {
                book_id,
                user_id,
                current_page: 1,
                total_pages: 0,
                last_read_at: now,
                completed: false,
            },
        }
    }

    /// Atomic insert-or-overwrite of the single row for (user, book).
    ///
    /// Negative pages are rejected with `BadRequest` and the store is
    /// untouched. Otherwise exactly one row for the pair survives —
    /// the map insert — holding this call's values and the derived
    /// completion flag, and every other pair is unchanged. Returns the
    /// resulting row.
    pub fn save(
        &mut self,
        user_id: u128,
        book_id: u128,
        current_page: i32,
        total_pages: i32,
        now: i64,
    ) -> (r: Result<ReadingProgress, ServiceError>)
        ensures
            current_page < 0 || total_pages < 0 ==> r == Err::<ReadingProgress, ServiceError>(
                ServiceError::BadRequest,
            ) && final(self)@ == old(self)@,
            current_page >= 0 && total_pages >= 0 ==> r == Ok::<ReadingProgress, ServiceError>(
                saved_progress(user_id, book_id, current_page, total_pages, now),
            ) && final(self)@ == old(self)@.insert(
                (user_id, book_id),
                saved_progress(user_id, book_id, current_page, total_pages, now),
            ),
    {
        if current_page < 0 || total_pages < 0 {
            return Err(ServiceError::BadRequest);
        }
        proof {
            use_type_invariant(&*self);
        }
        let completed = current_page >= total_pages;
        let row = ReadingProgress {
            book_id,
            user_id,
            current_page,
            total_pages,
            last_read_at: now,
            completed,
        };
        let idx = self.find(user_id, book_id);
        let ghost old_rows = self.rows@;
        let mut rows: Vec<ReadingProgress> = Vec::new();
        core::mem::swap(&mut self.rows, &mut rows);
        match idx {
            Some(i) => {
                proof {
                    lemma_row_map_update(old_rows, pkey(), i as int, row);
                }
                rows[i] = row;
                proof {
                    assert forall|p: int, q: int|
                        0 <= p < q < rows@.len() implies progress_key(#[trigger] rows@[p])
                        != progress_key(#[trigger] rows@[q]) by {
                        if p == i {
                            assert(rows@[q] == old_rows[q]);
                        } else if q == i {
                            assert(rows@[p] == old_rows[p]);
                        } else {
                            assert(rows@[p] == old_rows[p]);
                            assert(rows@[q] == old_rows[q]);
                        }
                    }
                }
            },
            None => {
                proof {
                    lemma_row_map_push(old_rows, pkey(), row);
                    lemma_row_map_contains(old_rows, pkey(), (user_id, book_id));
                }
                rows.push(row);
                proof {
                    assert forall|p: int, q: int|
                        0 <= p < q < rows@.len() implies progress_key(#[trigger] rows@[p])
                        != progress_key(#[trigger] rows@[q]) by {
                        if q == old_rows.len() {
                            assert(rows@[p] == old_rows[p]);
                            lemma_row_map_contains(old_rows, pkey(), progress_key(old_rows[p]));
                        } else {
                            assert(rows@[p] == old_rows[p]);
                            assert(rows@[q] == old_rows[q]);
                        }
                    }
                }
            },
        }
        core::mem::swap(&mut self.rows, &mut rows);
        Ok(row)
    }

    /// How many distinct books the user has a progress row for: since
    /// the key is the (user, book) pair, this is the number of the
    /// user's rows.
    pub fn books_read_count(&self, user_id: u128) -> (count: usize)
        ensures
            count == spec_books_read(self@, user_id),
    {
        proof {
            use_type_invariant(self);
            lemma_map_sum_empty(book_weight(user_id));
            assert(self.rows@.take(0) =~= Seq::<ReadingProgress>::empty());
        }
        let n = self.rows.len();
        let mut count: usize = 0;
        let mut i: usize = 0;
        while i < n
            invariant
                n == self.rows@.len(),
                i <= n,
                count <= i,
                distinct_keys(self.rows@, pkey()),
                count == map_sum(
                    row_map(self.rows@.take(i as int), pkey()),
                    book_weight(user_id),
                ),
            decreases n - i,
        {
            proof {
                let prefix = self.rows@.take(i as int);
                let next = self.rows@.take(i + 1 as int);
                assert(next =~= prefix.push(self.rows@[i as int]));
                lemma_row_map_push(prefix, pkey(), self.rows@[i as int]);
                lemma_row_map_finite(prefix, pkey());
                lemma_distinct_prefix(self.rows@, pkey(), i as int);
                lemma_row_map_contains(prefix, pkey(), progress_key(self.rows@[i as int]));
                assert forall|j: int|
                    0 <= j < prefix.len() implies progress_key(#[trigger] prefix[j])
                    != progress_key(self.rows@[i as int]) by {
                    assert(prefix[j] == self.rows@[j]);
                }
                lemma_map_sum_insert(
                    row_map(prefix, pkey()),
                    book_weight(user_id),
                    progress_key(self.rows@[i as int]),
                    self.rows@[i as int],
                );
            }
            let row = &self.rows[i];
            if row.user_id == user_id {
                count += 1;
            }
            i += 1;
        }
        proof {
            assert(self.rows@.take(n as int) =~= self.rows@);
        }
        count
    }
}

/// Law: completion is derived from the pages alone — a save yields
/// `completed` exactly when `current_page >= total_pages`, for every
/// accepted pair of pages, (0, 0) included.
pub proof fn lemma_save_derives_completion(
    user_id: u128,
    book_id: u128,
    current_page: i32,
    total_pages: i32,
    now: i64,
)
    ensures
        saved_progress(user_id, book_id, current_page, total_pages, now).completed <==> current_page
            >= total_pages,
{
}

/// Law: repeated saves for the same (user, book) are an idempotent
/// overwrite — the second save leaves the store exactly as if only the
/// most recent call had ever run, with a single row for the pair.
pub proof fn lemma_repeated_save_overwrites(
    m: Map<(u128, u128), ReadingProgress>,
    user_id: u128,
    book_id: u128,
    first: ReadingProgress,
    second: ReadingProgress,
)
    ensures
        m.insert((user_id, book_id), first).insert((user_id, book_id), second) == m.insert(
            (user_id, book_id),
            second,
        ),
{
    assert(m.insert((user_id, book_id), first).insert((user_id, book_id), second) =~= m.insert(
        (user_id, book_id),
        second,
    ));
}

} // verus!
