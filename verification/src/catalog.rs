//! The reference catalog: books and categories, read-mostly data the
//! other components check identifiers against, plus the pagination
//! window the listing endpoints share.

use vstd::prelude::*;
use vstd::string::StringExecFns;
use vstd::string::StringSliceAdditionalSpecFns;

use crate::errors::ServiceError;
use crate::rows::{
    distinct_keys, lemma_distinct_prefix, lemma_map_sum_empty, lemma_map_sum_insert,
    lemma_row_map_contains, lemma_row_map_finite, lemma_row_map_index, lemma_row_map_insert_at,
    lemma_row_map_len, lemma_row_map_push, lemma_row_map_update, map_sum, row_map,
};

verus! {

/// A book's serving format.
#[derive(Clone, Copy, Debug, PartialEq, Eq, Structural)]
pub enum BookFormat {
    PDF,
    EPUB,
    MOBI,
}

/// The lowercase name of a format, as bytes.
pub open spec fn format_name_bytes(f: BookFormat) -> Seq<u8> {
    match f {
        BookFormat::PDF => seq![112u8, 100u8, 102u8],
        BookFormat::EPUB => seq![101u8, 112u8, 117u8, 98u8],
        BookFormat::MOBI => seq![109u8, 111u8, 98u8, 105u8],
    }
}

/// ASCII case folding of one byte.
pub open spec fn ascii_lower_byte(b: u8) -> u8 {
    if 65 <= b <= 90 {
        (b + 32) as u8
    } else {
        b
    }
}

/// ASCII case folding of a byte string.
pub open spec fn lower_bytes(s: Seq<u8>) -> Seq<u8> {
    s.map(|i: int, b: u8| ascii_lower_byte(b))
}

fn ascii_lower(b: u8) -> (r: u8)
    ensures
        r == ascii_lower_byte(b),
{
    if b >= 65 && b <= 90 {
        b + 32
    } else {
        b
    }
}

/// The lowercase name of a format, as text.
pub open spec fn format_name(f: BookFormat) -> Seq<char> {
    match f {
        BookFormat::PDF => "pdf"@,
        BookFormat::EPUB => "epub"@,
        BookFormat::MOBI => "mobi"@,
    }
}

impl BookFormat {
    /// The lowercase name the format renders as.
    pub fn fmt(&self) -> (s: &'static str)
        ensures
            s@ == format_name(*self),
    {
        match self {
            BookFormat::PDF => "pdf",
            BookFormat::EPUB => "epub",
            BookFormat::MOBI => "mobi",
        }
    }

    /// Parse a format name, ignoring ASCII case: exactly the strings
    /// that case-fold to "pdf", "epub" or "mobi" are accepted; anything
    /// else is answered with a message naming the offending input.
    pub fn from_str(s: &str) -> (r: Result<BookFormat, String>)
        ensures
            r matches Ok(f) ==> lower_bytes(s.spec_bytes()) == format_name_bytes(f),
            r matches Err(m) ==> (forall|f: BookFormat|
                lower_bytes(s.spec_bytes()) != format_name_bytes(f)) && m@ =~= (
            "Unknown book format: "@ + s@),
    {
        let bytes = s.as_bytes();
        let n = bytes.len();
        if n == 3 {
            let c0 = ascii_lower(bytes[0]);
            let c1 = ascii_lower(bytes[1]);
            let c2 = ascii_lower(bytes[2]);
            if c0 == 112 && c1 == 100 && c2 == 102 {
                proof {
                    assert(lower_bytes(s.spec_bytes()) =~= format_name_bytes(BookFormat::PDF));
                }
                return Ok(BookFormat::PDF);
            }
        } else if n == 4 {
            let c0 = ascii_lower(bytes[0]);
            let c1 = ascii_lower(bytes[1]);
            let c2 = ascii_lower(bytes[2]);
            let c3 = ascii_lower(bytes[3]);
            if c0 == 101 && c1 == 112 && c2 == 117 && c3 == 98 {
                proof {
                    assert(lower_bytes(s.spec_bytes()) =~= format_name_bytes(BookFormat::EPUB));
                }
                return Ok(BookFormat::EPUB);
            }
            if c0 == 109 && c1 == 111 && c2 == 98 && c3 == 105 {
                proof {
                    assert(lower_bytes(s.spec_bytes()) =~= format_name_bytes(BookFormat::MOBI));
                }
                return Ok(BookFormat::MOBI);
            }
        }
        proof {
            assert forall|f: BookFormat| lower_bytes(s.spec_bytes()) != format_name_bytes(f) by {
                let sb = s.spec_bytes();
                if lower_bytes(sb) == format_name_bytes(f) {
                    assert(lower_bytes(sb).len() == sb.len());
                    assert(sb.len() == 3 || sb.len() == 4);
                    assert(lower_bytes(sb)[0] == ascii_lower_byte(sb[0]));
                    assert(lower_bytes(sb)[1] == ascii_lower_byte(sb[1]));
                    assert(lower_bytes(sb)[2] == ascii_lower_byte(sb[2]));
                    if sb.len() == 4 {
                        assert(lower_bytes(sb)[3] == ascii_lower_byte(sb[3]));
                    }
                }
            }
        }
        let msg = String::from_str("Unknown book format: ").concat(s);
        proof {
            reveal_strlit("Unknown book format: ");
        }
        Err(msg)
    }
}

/// Catalog record of one book; identifiers are 128-bit UUID values,
/// instants are seconds since the Unix epoch.
#[derive(Debug)]
pub struct Book {
    pub id: u128,
    pub title: String,
    pub author: String,
    pub description: String,
    pub cover_image: String,
    pub category_id: u128,
    pub format: BookFormat,
    pub file_path: String,
    pub total_pages: i32,
    pub published_date: i64,
    pub created_at: i64,
}

/// The listing view of a book.
#[derive(Debug)]
pub struct BookSummary {
    pub id: u128,
    pub title: String,
    pub author: String,
    pub cover_image: String,
    pub category_id: u128,
    pub category_name: String,
    pub format: BookFormat,
}

/// One category with its derived book count.
#[derive(Debug)]
pub struct Category {
    pub id: u128,
    pub name: String,
    pub description: String,
    pub book_count: i64,
}

/// Query parameters of the book listing.
pub struct GetBooksQuery {
    pub category: Option<String>,
    pub page: Option<usize>,
    pub limit: Option<usize>,
}

/// Query parameters of plainly paginated listings.
pub struct PaginationQuery {
    pub page: Option<usize>,
    pub limit: Option<usize>,
}

/// Query parameters of the search endpoint.
pub struct SearchQuery {
    pub q: String,
    pub page: Option<usize>,
    pub limit: Option<usize>,
}

/// The page size a listing uses: the requested limit, defaulting to 20
/// and capped at 100.
pub open spec fn spec_limit(limit: Option<usize>) -> int {
    let l = match limit {
        Some(l) => l as int,
        None => 20,
    };
    if l > 100 {
        100
    } else {
        l
    }
}

/// The row offset a listing starts at: (page - 1) * limit with the page
/// defaulting to 1, page 0 treated as page 1, saturated at usize::MAX.
pub open spec fn spec_offset(page: Option<usize>, limit: Option<usize>) -> int {
    let p = match page {
        Some(p) => p as int,
        None => 1,
    };
    let p1 = if p == 0 {
        0
    } else {
        p - 1
    };
    if p1 * spec_limit(limit) > usize::MAX {
        usize::MAX as int
    } else {
        p1 * spec_limit(limit)
    }
}

/// The (limit, offset) window a paginated listing serves.
pub fn page_window(page: Option<usize>, limit: Option<usize>) -> (r: (usize, usize))
    ensures
        r.0 == spec_limit(limit),
        r.1 == spec_offset(page, limit),
{
    let l: usize = match limit {
        Some(l) => if l > 100 {
            100
        } else {
            l
        },
        None => 20,
    };
    let p: usize = match page {
        Some(p) => p,
        None => 1,
    };
    let p1: usize = if p == 0 {
        0
    } else {
        p - 1
    };
    proof {
        assert((p1 as int) * (l as int) <= u128::MAX) by (nonlinear_arith)
            requires
                0 <= p1 as int <= u64::MAX as int,
                0 <= l as int <= u64::MAX as int,
        ;
    }
    let wide: u128 = (p1 as u128) * (l as u128);
    let off: usize = if wide > usize::MAX as u128 {
        usize::MAX
    } else {
        wide as usize
    };
    (l, off)
}

/// The page of a listing that the window parameters select.
pub open spec fn spec_window(all: Seq<u128>, page: Option<usize>, limit: Option<usize>) -> Seq<
    u128,
> {
    let off = spec_offset(page, limit);
    let lim = spec_limit(limit);
    let hi = if off + lim > all.len() {
        all.len() as int
    } else {
        off + lim
    };
    if off >= all.len() {
        Seq::empty()
    } else {
        all.subrange(off, hi)
    }
}

/// Copy the selected window out of a full listing.
fn window(all: Vec<u128>, page: Option<usize>, limit: Option<usize>) -> (r: Vec<u128>)
    ensures
        r@ == spec_window(all@, page, limit),
{
    let (lim, off) = page_window(page, limit);
    let total = all.len();
    let mut r: Vec<u128> = Vec::new();
    if off >= total {
        proof {
            assert(r@ =~= Seq::<u128>::empty());
        }
        return r;
    }
    let hi: usize = if lim > total - off {
        total
    } else {
        off + lim
    };
    let mut j: usize = off;
    while j < hi
        invariant
            off <= j <= hi <= total,
            total == all@.len(),
            r@ == all@.subrange(off as int, j as int),
        decreases hi - j,
    {
        r.push(all[j]);
        proof {
            assert(r@ =~= all@.subrange(off as int, j + 1 as int));
        }
        j += 1;
    }
    r
}

/// The bytes a piece of text is stored as.
pub open spec fn text_bytes(s: Seq<char>) -> Seq<u8> {
    vstd::utf8::encode_utf8(s)
}

/// Whether `needle` occurs contiguously in `hay`.
pub open spec fn contains_sub(hay: Seq<u8>, needle: Seq<u8>) -> bool {
    exists|k: int|
        0 <= k && k + needle.len() <= hay.len() && #[trigger] hay.subrange(k, k + needle.len())
            == needle
}

/// Whether a book's title contains the query after ASCII case folding.
pub open spec fn matches_title(b: Book, q: Seq<char>) -> bool {
    contains_sub(lower_bytes(text_bytes(b.title@)), lower_bytes(text_bytes(q)))
}

/// Whether a book's author contains the query after ASCII case folding.
pub open spec fn matches_author(b: Book, q: Seq<char>) -> bool {
    contains_sub(lower_bytes(text_bytes(b.author@)), lower_bytes(text_bytes(q)))
}

/// Whether a book's description contains the query after ASCII case
/// folding.
pub open spec fn matches_description(b: Book, q: Seq<char>) -> bool {
    contains_sub(lower_bytes(text_bytes(b.description@)), lower_bytes(text_bytes(q)))
}

/// The ids of the books a predicate selects, in listing order.
pub open spec fn selected_ids(s: Seq<Book>, pred: spec_fn(Book) -> bool) -> Seq<u128>
    decreases s.len(),
{
    if s.len() == 0 {
        Seq::empty()
    } else {
        let rest = selected_ids(s.drop_last(), pred);
        if pred(s.last()) {
            rest.push(s.last().id)
        } else {
            rest
        }
    }
}

/// The full ranked search result: books whose title matches come first,
/// then author-only matches, then description-only matches, each tier
/// in listing order.
pub open spec fn searched_ids(s: Seq<Book>, q: Seq<char>) -> Seq<u128> {
    selected_ids(s, |b: Book| matches_title(b, q)) + selected_ids(
        s,
        |b: Book| !matches_title(b, q) && matches_author(b, q),
    ) + selected_ids(
        s,
        |b: Book| !matches_title(b, q) && !matches_author(b, q) && matches_description(b, q),
    )
}

/// The ASCII-lowered bytes of a string.
fn lower_vec(s: &str) -> (r: Vec<u8>)
    ensures
        r@ == lower_bytes(text_bytes(s@)),
{
    let bytes = s.as_bytes();
    let n = bytes.len();
    let mut r: Vec<u8> = Vec::new();
    let mut i: usize = 0;
    while i < n
        invariant
            n == bytes@.len(),
            bytes@ == s.spec_bytes(),
            i <= n,
            r@ == lower_bytes(s.spec_bytes()).take(i as int),
        decreases n - i,
    {
        r.push(ascii_lower(bytes[i]));
        proof {
            assert(r@ =~= lower_bytes(s.spec_bytes()).take(i + 1 as int));
        }
        i += 1;
    }
    proof {
        assert(lower_bytes(s.spec_bytes()).take(n as int) =~= lower_bytes(s.spec_bytes()));
    }
    r
}

/// Substring search on case-folded bytes: the naive scan, checked
/// against the existence of a match position.
fn contains_lower(hay: &Vec<u8>, needle: &Vec<u8>) -> (r: bool)
    ensures
        r == contains_sub(hay@, needle@),
{
    let n = hay.len();
    let m = needle.len();
    if m > n {
        return false;
    }
    let mut k: usize = 0;
    while k <= n - m
        invariant
            m <= n,
            n == hay@.len(),
            m == needle@.len(),
            k <= n - m + 1,
            forall|j: int| 0 <= j < k ==> #[trigger] hay@.subrange(j, j + m) != needle@,
        decreases n - m - k + 1,
    {
        let mut j: usize = 0;
        while j < m && hay[k + j] == needle[j]
            invariant
                k + m <= n,
                n == hay@.len(),
                m == needle@.len(),
                j <= m,
                forall|t: int| 0 <= t < j ==> hay@[k + t] == needle@[t],
            decreases m - j,
        {
            j += 1;
        }
        if j == m {
            proof {
                assert(hay@.subrange(k as int, k + m as int) =~= needle@);
            }
            return true;
        }
        proof {
            assert(hay@.subrange(k as int, k + m as int)[j as int] == hay@[k + j]);
        }
        k += 1;
    }
    proof {
        if contains_sub(hay@, needle@) {
            let kk = choose|kk: int|
                0 <= kk && kk + needle@.len() <= hay@.len() && #[trigger] hay@.subrange(
                    kk,
                    kk + needle@.len(),
                ) == needle@;
            assert(hay@.subrange(kk, kk + m) != needle@);
        }
    }
    false
}

/// Whether a book belongs in a listing filtered by category.
pub open spec fn category_matches(b: Book, category: Option<u128>) -> bool {
    match category {
        Some(c) => b.category_id == c,
        None => true,
    }
}

/// The ids of the catalog's books that pass the category filter, in
/// listing order.
pub open spec fn filtered_ids(s: Seq<Book>, category: Option<u128>) -> Seq<u128>
    decreases s.len(),
{
    if s.len() == 0 {
        Seq::empty()
    } else {
        let rest = filtered_ids(s.drop_last(), category);
        if category_matches(s.last(), category) {
            rest.push(s.last().id)
        } else {
            rest
        }
    }
}

/// The id extractor as a value, for the row-map lemmas.
pub open spec fn bkey() -> spec_fn(Book) -> u128 {
    |b: Book| b.id
}

/// The per-category weight, for derived category book counts.
pub open spec fn category_weight(category_id: u128) -> spec_fn(u128, Book) -> int {
    |k: u128, b: Book| if b.category_id == category_id {
        1int
    } else {
        0int
    }
}

/// How many catalog books belong to a category.
pub open spec fn spec_category_count(m: Map<u128, Book>, category_id: u128) -> int {
    map_sum(m, category_weight(category_id))
}

/// The book catalog: one row per book id, kept in listing order.
pub struct Catalog {
    rows: Vec<Book>,
}

impl View for Catalog {
    type V = Map<u128, Book>;

    closed spec fn view(&self) -> Map<u128, Book> {
        row_map(self.rows@, bkey())
    }
}

impl Catalog {
    #[verifier::type_invariant]
    spec fn inv(self) -> bool {
        distinct_keys(self.rows@, bkey())
    }

    /// The books in listing order; what the filters below run over.
    pub closed spec fn listing(&self) -> Seq<Book> {
        self.rows@
    }

    /// An empty catalog.
    pub fn new() -> (r: Catalog)
        ensures
            r@ == Map::<u128, Book>::empty(),
            r.listing() == Seq::<Book>::empty(),
    {
        let r = Catalog { rows: Vec::new() };
        proof {
            assert(r.listing() =~= Seq::<Book>::empty());
        }
        r
    }

    /// The number of books.
    pub fn len(&self) -> (n: usize)
        ensures
            n == self@.dom().len(),
            self@.dom().finite(),
    {
        proof {
            use_type_invariant(self);
            lemma_row_map_len(self.rows@, bkey());
        }
        self.rows.len()
    }

    fn find(&self, id: u128) -> (r: Option<usize>)
        ensures
            match r {
                Some(i) => i < self.rows@.len() && self.rows@[i as int].id == id
                    && self@.contains_key(id) && self@[id] == self.rows@[i as int],
                None => !self@.contains_key(id),
            },
    {
        proof {
            use_type_invariant(self);
        }
        let n = self.rows.len();
        let mut i: usize = 0;
        while i < n
            invariant
                n == self.rows@.len(),
                i <= n,
                forall|j: int| 0 <= j < i ==> (#[trigger] self.rows@[j]).id != id,
            decreases n - i,
        {
            if self.rows[i].id == id {
                proof {
                    use_type_invariant(self);
                    lemma_row_map_index(self.rows@, bkey(), i as int);
                }
                return Some(i);
            }
            i += 1;
        }
        proof {
            lemma_row_map_contains(self.rows@, bkey(), id);
        }
        None
    }

    /// Add a book, or replace the one already carrying its id; a fresh
    /// id appends to the listing order.
    pub fn add_book(&mut self, book: Book) -> (replaced: bool)
        ensures
            final(self)@ == old(self)@.insert(book.id, book),
            replaced == old(self)@.contains_key(book.id),
            !replaced ==> final(self).listing() == old(self).listing().push(book),
    {
        proof {
            use_type_invariant(&*self);
        }
        let id = book.id;
        let idx = self.find(id);
        let ghost old_rows = self.rows@;
        let mut rows: Vec<Book> = Vec::new();
        core::mem::swap(&mut self.rows, &mut rows);
        let replaced: bool;
        match idx {
            Some(i) => {
                proof {
                    lemma_row_map_update(old_rows, bkey(), i as int, book);
                }
                rows[i] = book;
                replaced = true;
                proof {
                    assert forall|p: int, q: int|
                        0 <= p < q < rows@.len() implies (#[trigger] rows@[p]).id
                        != (#[trigger] rows@[q]).id by {
                        if p == i {
                            assert(rows@[q] == old_rows[q]);
                        } else if q == i {
                            assert(rows@[p] == old_rows[p]);
                        } else {
                            assert(rows@[p] == old_rows[p]);
                            assert(rows@[q] == old_rows[q]);
                        }
                    }
                }
            },
            None => {
                proof {
                    lemma_row_map_push(old_rows, bkey(), book);
                    lemma_row_map_contains(old_rows, bkey(), id);
                }
                rows.push(book);
                replaced = false;
                proof {
                    assert forall|p: int, q: int|
                        0 <= p < q < rows@.len() implies (#[trigger] rows@[p]).id
                        != (#[trigger] rows@[q]).id by {
                        if q == old_rows.len() {
                            assert(rows@[p] == old_rows[p]);
                            lemma_row_map_contains(old_rows, bkey(), old_rows[p].id);
                        } else {
                            assert(rows@[p] == old_rows[p]);
                            assert(rows@[q] == old_rows[q]);
                        }
                    }
                }
            },
        }
        core::mem::swap(&mut self.rows, &mut rows);
        replaced
    }

    /// A copy of a book's full record, if the id exists.
    pub fn get_book(&self, id: u128) -> (r: Option<Book>)
        ensures
            match r {
                Some(b) => self@.contains_key(id) && b.id == id && b.title@ == self@[id].title@
                    && b.author@ == self@[id].author@ && b.description@ == self@[id].description@
                    && b.cover_image@ == self@[id].cover_image@ && b.category_id
                    == self@[id].category_id && b.format == self@[id].format && b.file_path@
                    == self@[id].file_path@ && b.total_pages == self@[id].total_pages
                    && b.published_date == self@[id].published_date && b.created_at
                    == self@[id].created_at,
                None => !self@.contains_key(id),
            },
    {
        match self.find(id) {
            Some(i) => {
                let b = &self.rows[i];
                Some(
                    Book {
                        id: b.id,
                        title: b.title.clone(),
                        author: b.author.clone(),
                        description: b.description.clone(),
                        cover_image: b.cover_image.clone(),
                        category_id: b.category_id,
                        format: b.format,
                        file_path: b.file_path.clone(),
                        total_pages: b.total_pages,
                        published_date: b.published_date,
                        created_at: b.created_at,
                    },
                )
            },
            None => None,
        }
    }

    /// Whether a book id exists — what the progress tracker's
    /// precondition checks against.
    pub fn contains_book(&self, id: u128) -> (r: bool)
        ensures
            r == self@.contains_key(id),
    {
        self.find(id).is_some()
    }

    /// The serving format and stored file path of a book, if it exists.
    pub fn book_format_path(&self, id: u128) -> (r: Option<(BookFormat, String)>)
        ensures
            match r {
                Some(fp) => self@.contains_key(id) && fp.0 == self@[id].format && fp.1@
                    == self@[id].file_path@,
                None => !self@.contains_key(id),
            },
    {
        match self.find(id) {
            Some(i) => {
                let b = &self.rows[i];
                Some((b.format, b.file_path.clone()))
            },
            None => None,
        }
    }

    /// The page-count column of a book, if it exists.
    pub fn book_total_pages(&self, id: u128) -> (r: Option<i32>)
        ensures
            match r {
                Some(tp) => self@.contains_key(id) && tp == self@[id].total_pages,
                None => !self@.contains_key(id),
            },
    {
        match self.find(id) {
            Some(i) => Some(self.rows[i].total_pages),
            None => None,
        }
    }

    /// The ids of one listing page: the category filter applied in
    /// listing order, then the pagination window.
    pub fn list_books(&self, category: Option<u128>, page: Option<usize>, limit: Option<usize>)
        -> (r: Vec<u128>)
        ensures
            r@ == spec_window(filtered_ids(self.listing(), category), page, limit),
    {
        let n = self.rows.len();
        let mut all: Vec<u128> = Vec::new();
        let mut i: usize = 0;
        proof {
            assert(self.rows@.take(0) =~= Seq::<Book>::empty());
        }
        while i < n
            invariant
                n == self.rows@.len(),
                i <= n,
                all@ == filtered_ids(self.rows@.take(i as int), category),
            decreases n - i,
        {
            proof {
                assert(self.rows@.take(i + 1 as int).drop_last() =~= self.rows@.take(i as int));
                assert(self.rows@.take(i + 1 as int).last() == self.rows@[i as int]);
            }
            let b = &self.rows[i];
            let keep = match category {
                Some(c) => b.category_id == c,
                None => true,
            };
            if keep {
                all.push(b.id);
            }
            i += 1;
        }
        proof {
            assert(self.rows@.take(n as int) =~= self.rows@);
        }
        window(all, page, limit)
    }

    /// One search page. An empty query is rejected with `BadRequest`
    /// before the catalog is consulted; otherwise the query is matched
    /// against title, author and description, ignoring ASCII case, the
    /// results ranked title matches first, then author-only, then
    /// description-only — each tier in listing order — and the
    /// pagination window applied.
    pub fn search_books(&self, q: &String, page: Option<usize>, limit: Option<usize>) -> (r:
        Result<Vec<u128>, ServiceError>)
        ensures
            q@.len() == 0 ==> r == Err::<Vec<u128>, ServiceError>(ServiceError::BadRequest),
            q@.len() > 0 ==> (r matches Ok(ids) && ids@ == spec_window(
                searched_ids(self.listing(), q@),
                page,
                limit,
            )),
    {
        if q.as_str().is_empty() {
            return Err(ServiceError::BadRequest);
        }
        let needle = lower_vec(q.as_str());
        let n = self.rows.len();
        let mut by_title: Vec<u128> = Vec::new();
        let mut by_author: Vec<u128> = Vec::new();
        let mut by_description: Vec<u128> = Vec::new();
        let mut i: usize = 0;
        proof {
            assert(self.rows@.take(0) =~= Seq::<Book>::empty());
        }
        while i < n
            invariant
                n == self.rows@.len(),
                i <= n,
                needle@ == lower_bytes(text_bytes(q@)),
                by_title@ == selected_ids(
                    self.rows@.take(i as int),
                    |b: Book| matches_title(b, q@),
                ),
                by_author@ == selected_ids(
                    self.rows@.take(i as int),
                    |b: Book| !matches_title(b, q@) && matches_author(b, q@),
                ),
                by_description@ == selected_ids(
                    self.rows@.take(i as int),
                    |b: Book| !matches_title(b, q@) && !matches_author(b, q@)
                        && matches_description(b, q@),
                ),
            decreases n - i,
        {
            proof {
                assert(self.rows@.take(i + 1 as int).drop_last() =~= self.rows@.take(i as int));
                assert(self.rows@.take(i + 1 as int).last() == self.rows@[i as int]);
            }
            let b = &self.rows[i];
            let title = lower_vec(b.title.as_str());
            let author = lower_vec(b.author.as_str());
            let description = lower_vec(b.description.as_str());
            if contains_lower(&title, &needle) {
                by_title.push(b.id);
            } else if contains_lower(&author, &needle) {
                by_author.push(b.id);
            } else if contains_lower(&description, &needle) {
                by_description.push(b.id);
            }
            i += 1;
        }
        proof {
            assert(self.rows@.take(n as int) =~= self.rows@);
        }
        let mut all = by_title;
        all.append(&mut by_author);
        all.append(&mut by_description);
        Ok(window(all, page, limit))
    }

    /// How many books a category holds — the derived count the category
    /// listing reports.
    pub fn count_in_category(&self, category_id: u128) -> (count: usize)
        ensures
            count == spec_category_count(self@, category_id),
    {
        proof {
            use_type_invariant(self);
            lemma_map_sum_empty(category_weight(category_id));
            assert(self.rows@.take(0) =~= Seq::<Book>::empty());
        }
        let n = self.rows.len();
        let mut count: usize = 0;
        let mut i: usize = 0;
        while i < n
            invariant
                n == self.rows@.len(),
                i <= n,
                count <= i,
                distinct_keys(self.rows@, bkey()),
                count == map_sum(
                    row_map(self.rows@.take(i as int), bkey()),
                    category_weight(category_id),
                ),
            decreases n - i,
        {
            proof {
                let prefix = self.rows@.take(i as int);
                let next = self.rows@.take(i + 1 as int);
                assert(next =~= prefix.push(self.rows@[i as int]));
                lemma_row_map_push(prefix, bkey(), self.rows@[i as int]);
                lemma_row_map_finite(prefix, bkey());
                lemma_distinct_prefix(self.rows@, bkey(), i as int);
                lemma_row_map_contains(prefix, bkey(), self.rows@[i as int].id);
                assert forall|j: int|
                    0 <= j < prefix.len() implies (#[trigger] prefix[j]).id
                    != self.rows@[i as int].id by {
                    assert(prefix[j] == self.rows@[j]);
                }
                lemma_map_sum_insert(
                    row_map(prefix, bkey()),
                    category_weight(category_id),
                    self.rows@[i as int].id,
                    self.rows@[i as int],
                );
            }
            if self.rows[i].category_id == category_id {
                count += 1;
            }
            i += 1;
        }
        proof {
            assert(self.rows@.take(n as int) =~= self.rows@);
        }
        count
    }
}

/// Lexicographic order on byte strings; the order the category listing
/// is kept in (by name).
pub open spec fn bytes_le(a: Seq<u8>, b: Seq<u8>) -> bool
    decreases a.len(),
{
    if a.len() == 0 {
        true
    } else if b.len() == 0 {
        false
    } else if a[0] < b[0] {
        true
    } else if a[0] > b[0] {
        false
    } else {
        bytes_le(a.drop_first(), b.drop_first())
    }
}

/// The order is total.
pub proof fn lemma_bytes_le_total(a: Seq<u8>, b: Seq<u8>)
    ensures
        bytes_le(a, b) || bytes_le(b, a),
    decreases a.len(),
{
    if a.len() == 0 {
    } else if b.len() == 0 {
    } else if a[0] == b[0] {
        lemma_bytes_le_total(a.drop_first(), b.drop_first());
    }
}

/// The order is transitive.
pub proof fn lemma_bytes_le_trans(a: Seq<u8>, b: Seq<u8>, c: Seq<u8>)
    requires
        bytes_le(a, b),
        bytes_le(b, c),
    ensures
        bytes_le(a, c),
    decreases a.len(),
{
    if a.len() == 0 {
    } else {
        if a[0] == b[0] && b[0] == c[0] {
            lemma_bytes_le_trans(a.drop_first(), b.drop_first(), c.drop_first());
        }
    }
}

/// Byte-lexicographic comparison of two names.
fn name_le(a: &str, b: &str) -> (r: bool)
    ensures
        r == bytes_le(a.spec_bytes(), b.spec_bytes()),
{
    let ab = a.as_bytes();
    let bb = b.as_bytes();
    let an = ab.len();
    let bn = bb.len();
    let mut i: usize = 0;
    proof {
        assert(ab@.skip(0) =~= ab@);
        assert(bb@.skip(0) =~= bb@);
    }
    while i < an && i < bn && ab[i] == bb[i]
        invariant
            i <= an,
            i <= bn,
            an == ab@.len(),
            bn == bb@.len(),
            ab@ == a.spec_bytes(),
            bb@ == b.spec_bytes(),
            bytes_le(ab@, bb@) == bytes_le(ab@.skip(i as int), bb@.skip(i as int)),
            bytes_le(bb@, ab@) == bytes_le(bb@.skip(i as int), ab@.skip(i as int)),
        decreases an - i,
    {
        proof {
            assert(ab@.skip(i as int)[0] == ab@[i as int]);
            assert(bb@.skip(i as int)[0] == bb@[i as int]);
            assert(ab@.skip(i as int).drop_first() =~= ab@.skip(i + 1 as int));
            assert(bb@.skip(i as int).drop_first() =~= bb@.skip(i + 1 as int));
        }
        i += 1;
    }
    proof {
        if i < an {
            assert(ab@.skip(i as int)[0] == ab@[i as int]);
        }
        if i < bn {
            assert(bb@.skip(i as int)[0] == bb@[i as int]);
        }
    }
    if i == an {
        true
    } else if i == bn {
        false
    } else {
        ab[i] < bb[i]
    }
}

/// The byte form of a category's name, for the listing order.
pub open spec fn category_name_bytes(c: Category) -> Seq<u8> {
    text_bytes(c.name@)
}

/// Whether a category sequence is in name order.
pub open spec fn sorted_by_name(s: Seq<Category>) -> bool {
    forall|i: int, j: int|
        0 <= i < j < s.len() ==> bytes_le(
            category_name_bytes(#[trigger] s[i]),
            category_name_bytes(#[trigger] s[j]),
        )
}

/// The id extractor as a value, for the row-map lemmas.
pub open spec fn ckey() -> spec_fn(Category) -> u128 {
    |c: Category| c.id
}

/// The category table: one row per category id, kept sorted by name —
/// the order the category listing is served in. Reference data: rows
/// are only ever added.
pub struct CategoryStore {
    rows: Vec<Category>,
}

impl View for CategoryStore {
    type V = Map<u128, Category>;

    closed spec fn view(&self) -> Map<u128, Category> {
        row_map(self.rows@, ckey())
    }
}

impl CategoryStore {
    #[verifier::type_invariant]
    spec fn inv(self) -> bool {
        &&& distinct_keys(self.rows@, ckey())
        &&& sorted_by_name(self.rows@)
    }

    /// The categories in listing order: sorted by name.
    pub closed spec fn listing(&self) -> Seq<Category> {
        self.rows@
    }

    /// An empty store.
    pub fn new() -> (r: CategoryStore)
        ensures
            r@ == Map::<u128, Category>::empty(),
            r.listing() == Seq::<Category>::empty(),
    {
        let r = CategoryStore { rows: Vec::new() };
        proof {
            assert(r.listing() =~= Seq::<Category>::empty());
        }
        r
    }

    /// The number of categories.
    pub fn len(&self) -> (n: usize)
        ensures
            n == self@.dom().len(),
            self@.dom().finite(),
            n == self.listing().len(),
    {
        proof {
            use_type_invariant(self);
            lemma_row_map_len(self.rows@, ckey());
        }
        self.rows.len()
    }

    fn find(&self, id: u128) -> (r: Option<usize>)
        ensures
            match r {
                Some(i) => i < self.rows@.len() && self.rows@[i as int].id == id
                    && self@.contains_key(id) && self@[id] == self.rows@[i as int],
                None => !self@.contains_key(id),
            },
    {
        proof {
            use_type_invariant(self);
        }
        let n = self.rows.len();
        let mut i: usize = 0;
        while i < n
            invariant
                n == self.rows@.len(),
                i <= n,
                forall|j: int| 0 <= j < i ==> (#[trigger] self.rows@[j]).id != id,
            decreases n - i,
        {
            if self.rows[i].id == id {
                proof {
                    use_type_invariant(self);
                    lemma_row_map_index(self.rows@, ckey(), i as int);
                }
                return Some(i);
            }
            i += 1;
        }
        proof {
            lemma_row_map_contains(self.rows@, ckey(), id);
        }
        None
    }

    /// A copy of a category's record, if the id exists.
    pub fn get_category(&self, id: u128) -> (r: Option<Category>)
        ensures
            match r {
                Some(c) => self@.contains_key(id) && c.id == id && c.name@ == self@[id].name@
                    && c.description@ == self@[id].description@ && c.book_count
                    == self@[id].book_count,
                None => !self@.contains_key(id),
            },
    {
        match self.find(id) {
            Some(i) => {
                let c = &self.rows[i];
                Some(
                    Category {
                        id: c.id,
                        name: c.name.clone(),
                        description: c.description.clone(),
                        book_count: c.book_count,
                    },
                )
            },
            None => None,
        }
    }

    /// Add a category at its place in name order. An id already present
    /// is left untouched — reference data is never overwritten here.
    pub fn add_category(&mut self, category: Category) -> (added: bool)
        ensures
            !added ==> old(self)@.contains_key(category.id) && final(self)@ == old(self)@
                && final(self).listing() == old(self).listing(),
            added ==> !old(self)@.contains_key(category.id) && final(self)@ == old(self)@.insert(
                category.id,
                category,
            ),
    {
        proof {
            use_type_invariant(&*self);
        }
        if self.find(category.id).is_some() {
            return false;
        }
        let n = self.rows.len();
        let mut pos: usize = 0;
        while pos < n && name_le(self.rows[pos].name.as_str(), category.name.as_str())
            invariant
                pos <= n,
                n == self.rows@.len(),
                forall|j: int|
                    0 <= j < pos ==> bytes_le(
                        category_name_bytes(#[trigger] self.rows@[j]),
                        category_name_bytes(category),
                    ),
            decreases n - pos,
        {
            pos += 1;
        }
        let ghost old_rows = self.rows@;
        proof {
            lemma_row_map_contains(old_rows, ckey(), category.id);
            assert forall|j: int| 0 <= j < old_rows.len() implies ckey()(
                #[trigger] old_rows[j],
            ) != ckey()(category) by {
                if old_rows[j].id == category.id {
                    assert(self@.contains_key(category.id));
                }
            }
            lemma_row_map_insert_at(old_rows, ckey(), pos as int, category);
        }
        let mut rows: Vec<Category> = Vec::new();
        core::mem::swap(&mut self.rows, &mut rows);
        rows.insert(pos, category);
        proof {
            assert forall|p: int, q: int|
                0 <= p < q < rows@.len() implies (#[trigger] rows@[p]).id != (
            #[trigger] rows@[q]).id by {
                if p == pos {
                    assert(rows@[q] == old_rows[q - 1]);
                } else if q == pos {
                    assert(rows@[p] == old_rows[p]);
                } else if p < pos && q < pos {
                    assert(rows@[p] == old_rows[p]);
                    assert(rows@[q] == old_rows[q]);
                } else if p < pos {
                    assert(rows@[p] == old_rows[p]);
                    assert(rows@[q] == old_rows[q - 1]);
                } else {
                    assert(rows@[p] == old_rows[p - 1]);
                    assert(rows@[q] == old_rows[q - 1]);
                }
            }
            assert forall|p: int, q: int|
                0 <= p < q < rows@.len() implies bytes_le(
                category_name_bytes(#[trigger] rows@[p]),
                category_name_bytes(#[trigger] rows@[q]),
            ) by {
                if pos < old_rows.len() {
                    lemma_bytes_le_total(
                        category_name_bytes(old_rows[pos as int]),
                        category_name_bytes(category),
                    );
                }
                if p == pos {
                    assert(rows@[q] == old_rows[q - 1]);
                    if q - 1 > pos {
                        lemma_bytes_le_trans(
                            category_name_bytes(category),
                            category_name_bytes(old_rows[pos as int]),
                            category_name_bytes(old_rows[q - 1]),
                        );
                    }
                } else if q == pos {
                    assert(rows@[p] == old_rows[p]);
                } else if p < pos && q < pos {
                    assert(rows@[p] == old_rows[p]);
                    assert(rows@[q] == old_rows[q]);
                } else if p < pos {
                    assert(rows@[p] == old_rows[p]);
                    assert(rows@[q] == old_rows[q - 1]);
                } else {
                    assert(rows@[p] == old_rows[p - 1]);
                    assert(rows@[q] == old_rows[q - 1]);
                }
            }
        }
        core::mem::swap(&mut self.rows, &mut rows);
        true
    }

    /// The category ids in listing order — one per category, sorted by
    /// name, each mapping back to its record.
    pub fn list_categories(&self) -> (r: Vec<u128>)
        ensures
            r@.len() == self.listing().len(),
            forall|i: int|
                0 <= i < r@.len() ==> r@[i] == (#[trigger] self.listing()[i]).id
                    && self@.contains_key(self.listing()[i].id) && self@[self.listing()[i].id]
                    == self.listing()[i],
            sorted_by_name(self.listing()),
            self.listing().len() == self@.dom().len(),
    {
        proof {
            use_type_invariant(self);
            lemma_row_map_len(self.rows@, ckey());
            assert forall|i: int| 0 <= i < self.rows@.len() implies self@.contains_key(
                (#[trigger] self.rows@[i]).id,
            ) && self@[self.rows@[i].id] == self.rows@[i] by {
                lemma_row_map_index(self.rows@, ckey(), i);
            }
        }
        let n = self.rows.len();
        let mut r: Vec<u128> = Vec::new();
        let mut i: usize = 0;
        while i < n
            invariant
                n == self.rows@.len(),
                i <= n,
                r@.len() == i,
                forall|j: int| 0 <= j < i ==> r@[j] == (#[trigger] self.rows@[j]).id,
            decreases n - i,
        {
            r.push(self.rows[i].id);
            i += 1;
        }
        r
    }
}

} // verus!
