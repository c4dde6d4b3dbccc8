use vstd::prelude::*;

use crate::decimal::{
    decimal_digits, law_decimal_roundtrip, parse_u64, push_decimal, spec_parse_u64,
    u64_to_decimal,
};
use crate::seqs::{
    find_first, first_index, lemma_first_index, lemma_first_index_at, lemma_first_index_none,
    lemma_max_key, max_key,
};

verus! {

// ----------------------------------------------------------------------------
// ISBN
// ----------------------------------------------------------------------------

/// An ISBN-13, kept as its number.
#[derive(Clone, Copy, PartialEq, Eq, Structural, Debug)]
pub struct Isbn(pub u64);

/// Why a number or a text is no ISBN-13.
#[derive(Debug)]
pub enum IsbnError {
    /// The number lies outside 9780000000000 ..= 9799999999999.
    RangeError(u64),
    /// The text is no decimal number; the text of the parse error.
    ParseError(String),
}

/// `IsbnError` with its text taken as characters.
pub enum IsbnErrorView {
    RangeError(u64),
    ParseError(Seq<char>),
}

impl View for IsbnError {
    type V = IsbnErrorView;

    open spec fn view(&self) -> IsbnErrorView {
        match self {
            IsbnError::RangeError(n) => IsbnErrorView::RangeError(*n),
            IsbnError::ParseError(s) => IsbnErrorView::ParseError(s@),
        }
    }
}

impl IsbnErrorView {
    /// The text that describes the error.
    pub open spec fn spec_text(self) -> Seq<char> {
        match self {
            IsbnErrorView::RangeError(n) => "ISBN must be between 9780000000000 - 9799999999999: "@
                + decimal_digits(n as nat),
            IsbnErrorView::ParseError(s) => "parse error to u64: "@ + s,
        }
    }
}

impl IsbnError {
    /// The text that describes the error.
    pub fn to_string(&self) -> (r: String)
        ensures
            r@ == self@.spec_text(),
    {
        match self {
            IsbnError::RangeError(n) => {
                let mut text = String::from_str(
                    "ISBN must be between 9780000000000 - 9799999999999: ",
                );
                push_decimal(*n, &mut text);
                text
            },
            IsbnError::ParseError(s) => {
                let mut text = String::from_str("parse error to u64: ");
                text.append(s.as_str());
                text
            },
        }
    }
}

/// The outcome of making an ISBN, with the error taken by its view.
pub open spec fn isbn_result_view(r: Result<Isbn, IsbnError>) -> Result<Isbn, IsbnErrorView> {
    match r {
        Ok(i) => Ok(i),
        Err(e) => Err(e@),
    }
}

impl Isbn {
    /// Whether `n` lies in the range of ISBN-13 numbers.
    pub open spec fn spec_in_range(n: u64) -> bool {
        9780000000000 <= n <= 9799999999999
    }

    /// What `Isbn::new` gives for `n`.
    pub open spec fn spec_new(n: u64) -> Result<Isbn, IsbnErrorView> {
        if Self::spec_in_range(n) {
            Ok(Isbn(n))
        } else {
            Err(IsbnErrorView::RangeError(n))
        }
    }

    /// What `Isbn::try_from` gives for the text `s`.
    pub open spec fn spec_try_from(s: Seq<char>) -> Result<Isbn, IsbnErrorView> {
        match spec_parse_u64(s) {
            Ok(n) => Self::spec_new(n),
            Err(e) => Err(IsbnErrorView::ParseError(e.spec_message())),
        }
    }

    /// The ISBN with number `isbn`, if it lies in 9780000000000 ..= 9799999999999.
    pub fn new(isbn: u64) -> (r: Result<Self, IsbnError>)
        ensures
            isbn_result_view(r) == Self::spec_new(isbn),
    {
        if !(9780000000000 <= isbn && isbn <= 9799999999999) {
            return Err(IsbnError::RangeError(isbn));
        }
        Ok(Isbn(isbn))
    }

    /// Reads an ISBN from its decimal text.
    pub fn try_from(item: String) -> (r: Result<Self, IsbnError>)
        ensures
            isbn_result_view(r) == Self::spec_try_from(item@),
    {
        match parse_u64(item.as_str()) {
            Ok(code) => Self::new(code),
            Err(err) => Err(IsbnError::ParseError(err.message())),
        }
    }

    /// The decimal text of the ISBN.
    pub fn to_string(&self) -> (r: String)
        ensures
            r@ == decimal_digits(self.0 as nat),
    {
        u64_to_decimal(self.0)
    }
}

/// Writing an ISBN as text and reading it back gives the same ISBN.
pub proof fn law_isbn_text_roundtrip(isbn: Isbn)
    requires
        Isbn::spec_in_range(isbn.0),
    ensures
        Isbn::spec_try_from(decimal_digits(isbn.0 as nat)) == Ok::<Isbn, IsbnErrorView>(isbn),
{
    law_decimal_roundtrip(isbn.0);
}

// ----------------------------------------------------------------------------
// Books
// ----------------------------------------------------------------------------

/// What is known of a book's edition.
#[derive(Debug)]
pub struct BookInfo {
    pub title: String,
    pub page_count: i32,
    pub isbn: Isbn,
}

/// A book on the shelf.
#[derive(Debug)]
pub struct Book {
    pub id: u32,
    pub info: BookInfo,
}

/// `BookInfo` with its title taken as characters.
pub struct BookInfoView {
    pub title: Seq<char>,
    pub page_count: i32,
    pub isbn: Isbn,
}

/// `Book` with its title taken as characters.
pub struct BookView {
    pub id: u32,
    pub info: BookInfoView,
}

impl View for BookInfo {
    type V = BookInfoView;

    open spec fn view(&self) -> BookInfoView {
        BookInfoView { title: self.title@, page_count: self.page_count, isbn: self.isbn }
    }
}

impl View for Book {
    type V = BookView;

    open spec fn view(&self) -> BookView {
        BookView { id: self.id, info: self.info@ }
    }
}

impl Clone for BookInfo {
    fn clone(&self) -> (r: Self)
        ensures
            r == *self,
    {
        BookInfo { title: self.title.clone(), page_count: self.page_count, isbn: self.isbn }
    }
}

impl Clone for Book {
    fn clone(&self) -> (r: Self)
        ensures
            r == *self,
    {
        Book { id: self.id, info: self.info.clone() }
    }
}

impl Book {
    /// The title of the book.
    pub fn title(&self) -> (r: &str)
        ensures
            r@ == self.info.title@,
    {
        self.info.title.as_str()
    }

    /// The number of pages of the book.
    pub fn page_count(&self) -> (r: i32)
        ensures
            r == self.info.page_count,
    {
        self.info.page_count
    }

    /// The ISBN of the book.
    pub fn isbn(&self) -> (r: Isbn)
        ensures
            r == self.info.isbn,
    {
        self.info.isbn
    }
}

/// The views of a sequence of books.
pub open spec fn books_view(s: Seq<Book>) -> Seq<BookView> {
    s.map_values(|b: Book| b@)
}

/// An optional value taken by its view.
pub open spec fn opt_view<T: View>(o: Option<T>) -> Option<T::V> {
    match o {
        Some(t) => Some(t@),
        None => None,
    }
}

/// Books with the ISBN `isbn`.
pub open spec fn isbn_is(isbn: Isbn) -> spec_fn(BookView) -> bool {
    |b: BookView| b.info.isbn == isbn
}

/// Books with the id `id`.
pub open spec fn book_id_is(id: u32) -> spec_fn(BookView) -> bool {
    |b: BookView| b.id == id
}

/// Books whose id is greater than `id`.
pub open spec fn book_id_above(id: u32) -> spec_fn(BookView) -> bool {
    |b: BookView| b.id > id
}

/// Books whose id is one of `ids`.
pub open spec fn book_id_in(ids: Seq<u32>) -> spec_fn(BookView) -> bool {
    |b: BookView| ids.contains(b.id)
}

/// The id of a book, as the key by which the shelf is ordered.
pub open spec fn book_key() -> spec_fn(BookView) -> int {
    |b: BookView| b.id as int
}

/// The id that the next book added to `books` gets: one more than the
/// greatest id so far, or 1 on an empty shelf.
pub open spec fn next_book_id(books: Seq<BookView>) -> int {
    max_key(books, book_key()) + 1
}

/// The shelf after a book with `info` is added under the next id.
pub open spec fn spec_add_book(books: Seq<BookView>, info: BookInfoView) -> Seq<BookView> {
    books.push(BookView { id: next_book_id(books) as u32, info })
}

/// The shelf after the first book with `isbn` is taken away.
pub open spec fn spec_delete_book(books: Seq<BookView>, isbn: Isbn) -> Seq<BookView> {
    match first_index(books, isbn_is(isbn)) {
        Some(i) => books.remove(i),
        None => books,
    }
}

// ----------------------------------------------------------------------------
// Ordering books by id
// ----------------------------------------------------------------------------

/// Where a book with id `id` goes into `sorted`: after every book whose id is
/// not greater than `id`.
pub open spec fn insert_position(sorted: Seq<BookView>, id: u32) -> int {
    match first_index(sorted, book_id_above(id)) {
        Some(p) => p,
        None => sorted.len() as int,
    }
}

/// `sorted` with `b` put in its place.
pub open spec fn insert_by_id(sorted: Seq<BookView>, b: BookView) -> Seq<BookView> {
    sorted.insert(insert_position(sorted, b.id), b)
}

/// The books of `s` ordered by id; books with equal ids keep their order (a
/// stable sort by id).
pub open spec fn sort_by_id(s: Seq<BookView>) -> Seq<BookView>
    decreases s.len(),
{
    if s.len() == 0 {
        s
    } else {
        insert_by_id(sort_by_id(s.drop_last()), s.last())
    }
}

/// Whether the ids in `s` never go down.
pub open spec fn sorted_by_id(s: Seq<BookView>) -> bool {
    forall|i: int, j: int| 0 <= i <= j < s.len() ==> (#[trigger] s[i]).id <= (#[trigger] s[j]).id
}

proof fn lemma_insert_position(sorted: Seq<BookView>, id: u32)
    ensures
        0 <= insert_position(sorted, id) <= sorted.len(),
        forall|j: int| 0 <= j < insert_position(sorted, id) ==> (#[trigger] sorted[j]).id <= id,
        insert_position(sorted, id) < sorted.len() ==> sorted[insert_position(sorted, id)].id > id,
{
    lemma_first_index(sorted, book_id_above(id));
}

proof fn lemma_insert_keeps_sorted(sorted: Seq<BookView>, b: BookView)
    requires
        sorted_by_id(sorted),
    ensures
        sorted_by_id(insert_by_id(sorted, b)),
        insert_by_id(sorted, b).to_multiset() == sorted.to_multiset().insert(b),
{
    let p = insert_position(sorted, b.id);
    lemma_insert_position(sorted, b.id);
    let t = insert_by_id(sorted, b);
    sorted.insert_ensures(p, b);
    assert forall|i: int, j: int| 0 <= i <= j < t.len() implies (#[trigger] t[i]).id <= (
    #[trigger] t[j]).id by {
        if i < p && j < p {
            assert(t[i] == sorted[i] && t[j] == sorted[j]);
        } else if i < p && j == p {
            assert(t[i] == sorted[i]);
        } else if i < p {
            assert(t[i] == sorted[i] && t[j] == sorted[j - 1]);
        } else if i == p && j > p {
            assert(t[j] == sorted[j - 1]);
            assert(sorted[p].id <= sorted[j - 1].id);
        } else if i > p {
            assert(t[i] == sorted[i - 1] && t[j] == sorted[j - 1]);
        }
    }
    vstd::seq_lib::to_multiset_insert(sorted, p, b);
}

/// Ordering by id gives books in ascending order of id, and the same books:
/// none is lost, none added.
pub proof fn law_sort_by_id(s: Seq<BookView>)
    ensures
        sorted_by_id(sort_by_id(s)),
        sort_by_id(s).to_multiset() == s.to_multiset(),
    decreases s.len(),
{
    if s.len() > 0 {
        law_sort_by_id(s.drop_last());
        lemma_insert_keeps_sorted(sort_by_id(s.drop_last()), s.last());
        vstd::seq_lib::to_multiset_build(s.drop_last(), s.last());
        assert(s.drop_last().push(s.last()) =~= s);
    } else {
        assert(s.to_multiset() =~= vstd::multiset::Multiset::empty()) by {
            vstd::seq_lib::to_multiset_len(s);
        }
    }
}

/// The books of `books`, ordered by id as a stable sort does.
pub fn sort_books_by_id(books: &Vec<Book>) -> (r: Vec<Book>)
    ensures
        books_view(r@) == sort_by_id(books_view(books@)),
{
    let mut r: Vec<Book> = Vec::new();
    let n = books.len();
    let mut i: usize = 0;
    while i < n
        invariant
            n == books@.len(),
            i <= n,
            books_view(r@) == sort_by_id(books_view(books@).take(i as int)),
        decreases n - i,
    {
        let b = books[i].clone();
        let ghost sorted = books_view(r@);
        let mut p: usize = 0;
        while p < r.len() && r[p].id <= b.id
            invariant
                p <= r@.len(),
                sorted == books_view(r@),
                forall|j: int| 0 <= j < p ==> !book_id_above(b.id)(#[trigger] sorted[j]),
            decreases r@.len() - p,
        {
            p = p + 1;
        }
        proof {
            if p < r@.len() {
                lemma_first_index_at(sorted, book_id_above(b.id), p as int);
            } else {
                lemma_first_index_none(sorted, book_id_above(b.id));
            }
            let prefix = books_view(books@).take(i as int + 1);
            assert(prefix.drop_last() =~= books_view(books@).take(i as int));
            assert(prefix.last() == b@);
        }
        let ghost before = r@;
        r.insert(p, b);
        assert(books_view(r@) =~= books_view(before).insert(p as int, b@));
        i = i + 1;
    }
    assert(books_view(books@).take(n as int) =~= books_view(books@));
    r
}

// ----------------------------------------------------------------------------
// The shelf
// ----------------------------------------------------------------------------

/// The books on the shelf, in the order they were added.
pub struct InMemoryBooksRepository(pub Vec<Book>);

impl View for InMemoryBooksRepository {
    type V = Seq<BookView>;

    open spec fn view(&self) -> Seq<BookView> {
        books_view(self.0@)
    }
}

/// Whether `id` is one of `ids`.
fn contains_id(ids: &Vec<u32>, id: u32) -> (r: bool)
    ensures
        r == ids@.contains(id),
{
    let mut i: usize = 0;
    while i < ids.len()
        invariant
            i <= ids@.len(),
            forall|j: int| 0 <= j < i ==> ids@[j] != id,
        decreases ids@.len() - i,
    {
        if ids[i] == id {
            return true;
        }
        i = i + 1;
    }
    false
}

impl InMemoryBooksRepository {
    /// The shelf as it starts: one book.
    pub fn new() -> (r: Self)
        ensures
            r@ == seq![
                BookView {
                    id: 1,
                    info: BookInfoView {
                        title: "実践Rust入門"@,
                        page_count: 576,
                        isbn: Isbn(9784297105594),
                    },
                },
            ],
    {
        let title = String::from_str("実践Rust入門");
        let r = InMemoryBooksRepository(
            vec![Book { id: 1, info: BookInfo { title, page_count: 576, isbn: Isbn(9784297105594) } }],
        );
        assert(r@ =~= seq![
            BookView {
                id: 1,
                info: BookInfoView {
                    title: "実践Rust入門"@,
                    page_count: 576,
                    isbn: Isbn(9784297105594),
                },
            },
        ]);
        r
    }

    /// The position of the first book that has `isbn`, if any.
    fn position_of_isbn(&self, isbn: Isbn) -> (r: Option<usize>)
        ensures
            match r {
                Some(i) => i < self@.len() && first_index(self@, isbn_is(isbn)) == Some(i as int),
                None => first_index(self@, isbn_is(isbn)) is None,
            },
    {
        let mut i: usize = 0;
        while i < self.0.len()
            invariant
                i <= self@.len(),
                forall|j: int| 0 <= j < i ==> !isbn_is(isbn)(#[trigger] self@[j]),
            decreases self@.len() - i,
        {
            if self.0[i].isbn() == isbn {
                proof {
                    lemma_first_index_at(self@, isbn_is(isbn), i as int);
                }
                return Some(i);
            }
            i = i + 1;
        }
        proof {
            lemma_first_index_none(self@, isbn_is(isbn));
        }
        None
    }

    /// Copies of the books whose id is one of `ids`, in shelf order.
    pub fn search(&self, ids: Vec<u32>) -> (r: Vec<Book>)
        ensures
            books_view(r@) == self@.filter(book_id_in(ids@)),
    {
        let mut r: Vec<Book> = Vec::new();
        let n = self.0.len();
        let mut i: usize = 0;
        while i < n
            invariant
                n == self@.len(),
                i <= n,
                books_view(r@) == self@.take(i as int).filter(book_id_in(ids@)),
            decreases n - i,
        {
            let ghost before = r@;
            proof {
                reveal(Seq::filter);
                assert(self@.take(i as int + 1).drop_last() =~= self@.take(i as int));
                assert(self@.take(i as int + 1).last() == self@[i as int]);
            }
            if contains_id(&ids, self.0[i].id) {
                r.push(self.0[i].clone());
                assert(books_view(r@) =~= books_view(before).push(self@[i as int]));
            }
            i = i + 1;
        }
        assert(self@.take(n as int) =~= self@);
        r
    }

    /// The id that the next book added gets, if it fits in 32 bits.
    pub fn next_id(&self) -> (r: Option<u32>)
        ensures
            r == if next_book_id(self@) <= u32::MAX {
                Some(next_book_id(self@) as u32)
            } else {
                None::<u32>
            },
    {
        let mut max: u32 = 0;
        let n = self.0.len();
        let mut i: usize = 0;
        while i < n
            invariant
                n == self@.len(),
                i <= n,
                max as int == max_key(self@.take(i as int), book_key()),
            decreases n - i,
        {
            proof {
                assert(self@.take(i as int + 1).drop_last() =~= self@.take(i as int));
                assert(self@.take(i as int + 1).last() == self@[i as int]);
            }
            if self.0[i].id > max {
                max = self.0[i].id;
            }
            i = i + 1;
        }
        assert(self@.take(n as int) =~= self@);
        if max == u32::MAX {
            None
        } else {
            Some(max + 1)
        }
    }

    /// Handles the message that adds a book: it goes on the shelf under the
    /// next id.
    pub fn handle_add(&mut self, msg: Add) -> (r: bool)
        requires
            next_book_id(old(self)@) <= u32::MAX,
        ensures
            r,
            final(self)@ == spec_add_book(
                old(self)@,
                BookInfoView { title: msg.title@, page_count: msg.page_count, isbn: msg.isbn },
            ),
    {
        let id = match self.next_id() {
            Some(id) => id,
            None => 1,
        };
        let book = Book {
            id,
            info: BookInfo { title: msg.title, page_count: msg.page_count, isbn: msg.isbn },
        };
        self.add(book)
    }

    /// Handles the message that looks an ISBN up, given what the book
    /// service answered for it: a book on the shelf wins over the answer.
    pub fn handle_search_from_isbn(&self, msg: SearchFromIsbn, network: BookInfo) -> (r:
        BookAndLocation)
        ensures
            match find_first(self@, isbn_is(msg.0)) {
                Some(b) => r.0@ == b.info && r.1 == BookInfoLocation::InMemory,
                None => r.0@ == network@ && r.1 == BookInfoLocation::Network,
            },
    {
        match self.find_by_isbn(msg.0) {
            Some(inmemory_book) => (inmemory_book.info.clone(), BookInfoLocation::InMemory),
            None => (network, BookInfoLocation::Network),
        }
    }
}

/// A shelf of books.
pub trait BooksRepository: View<V = Seq<BookView>> + Sized {
    /// A copy of the first book that has `isbn`.
    fn find_by_isbn(&self, isbn: Isbn) -> (r: Option<Book>)
        ensures
            opt_view(r) == find_first(self@, isbn_is(isbn)),
    ;

    /// Puts `book` on the shelf, after the others.
    fn add(&mut self, book: Book) -> (r: bool)
        ensures
            r,
            final(self)@ == old(self)@.push(book@),
    ;

    /// The book added last.
    fn latest(&self) -> (r: Option<&Book>)
        ensures
            opt_view(r) == if self@.len() == 0 {
                None
            } else {
                Some(self@.last())
            },
    ;

    /// Takes the first book that has `isbn` off the shelf; tells whether
    /// there was one.
    fn delete(&mut self, isbn: Isbn) -> (r: bool)
        ensures
            r == first_index(old(self)@, isbn_is(isbn)) is Some,
            final(self)@ == spec_delete_book(old(self)@, isbn),
    ;

    /// The first book with id `id`.
    fn find_by_id(&self, id: u32) -> (r: Option<&Book>)
        ensures
            opt_view(r) == find_first(self@, book_id_is(id)),
    ;
}

impl BooksRepository for InMemoryBooksRepository {
    fn find_by_isbn(&self, isbn: Isbn) -> (r: Option<Book>) {
        match self.position_of_isbn(isbn) {
            Some(i) => Some(self.0[i].clone()),
            None => None,
        }
    }

    fn add(&mut self, book: Book) -> (r: bool) {
        self.0.push(book);
        assert(books_view(self.0@) =~= books_view(old(self).0@).push(book@));
        true
    }

    fn latest(&self) -> (r: Option<&Book>) {
        if self.0.len() == 0 {
            None
        } else {
            Some(&self.0[self.0.len() - 1])
        }
    }

    fn delete(&mut self, isbn: Isbn) -> (r: bool) {
        match self.position_of_isbn(isbn) {
            Some(index) => {
                let ghost before = self.0@;
                self.0.remove(index);
                assert(books_view(self.0@) =~= books_view(before).remove(index as int));
                true
            },
            None => false,
        }
    }

    fn find_by_id(&self, id: u32) -> (r: Option<&Book>) {
        let mut i: usize = 0;
        while i < self.0.len()
            invariant
                i <= self@.len(),
                forall|j: int| 0 <= j < i ==> !book_id_is(id)(#[trigger] self@[j]),
            decreases self@.len() - i,
        {
            if self.0[i].id == id {
                proof {
                    lemma_first_index_at(self@, book_id_is(id), i as int);
                }
                return Some(&self.0[i]);
            }
            i = i + 1;
        }
        proof {
            lemma_first_index_none(self@, book_id_is(id));
        }
        None
    }
}

/// A book added under the next id is the one that its id finds, and the one
/// added last.
pub proof fn law_added_book_found(books: Seq<BookView>, info: BookInfoView)
    requires
        next_book_id(books) <= u32::MAX,
    ensures
        find_first(spec_add_book(books, info), book_id_is(next_book_id(books) as u32)) == Some(
            (BookView { id: next_book_id(books) as u32, info }),
        ),
        spec_add_book(books, info).last() == (BookView { id: next_book_id(books) as u32, info }),
{
    let t = spec_add_book(books, info);
    let id = next_book_id(books) as u32;
    lemma_max_key(books, book_key());
    assert forall|j: int| 0 <= j < books.len() implies !book_id_is(id)(#[trigger] t[j]) by {
        assert(t[j] == books[j]);
        assert(book_key()(books[j]) <= max_key(books, book_key()));
    }
    lemma_first_index_at(t, book_id_is(id), books.len() as int);
}

/// Deleting by ISBN takes out exactly the first book with that ISBN and
/// keeps every other book in its order: the books before it stay where they
/// were, the books after it move down by one, and the book added last stays
/// last.
pub proof fn law_delete_keeps_order(books: Seq<BookView>, isbn: Isbn, k: int)
    requires
        0 <= k < books.len(),
        books[k].info.isbn == isbn,
        forall|j: int| 0 <= j < k ==> (#[trigger] books[j]).info.isbn != isbn,
    ensures
        spec_delete_book(books, isbn).len() == books.len() - 1,
        forall|j: int| 0 <= j < k ==> #[trigger] spec_delete_book(books, isbn)[j] == books[j],
        forall|j: int|
            k <= j < books.len() - 1 ==> #[trigger] spec_delete_book(books, isbn)[j] == books[j
                + 1],
        k < books.len() - 1 ==> spec_delete_book(books, isbn).last() == books.last(),
{
    assert forall|j: int| 0 <= j < k implies !isbn_is(isbn)(#[trigger] books[j]) by {}
    lemma_first_index_at(books, isbn_is(isbn), k);
}

/// Deleting an ISBN that no book has leaves the shelf as it was.
pub proof fn law_delete_absent_isbn(books: Seq<BookView>, isbn: Isbn)
    requires
        forall|j: int| 0 <= j < books.len() ==> (#[trigger] books[j]).info.isbn != isbn,
    ensures
        spec_delete_book(books, isbn) == books,
{
    assert forall|j: int| 0 <= j < books.len() implies !isbn_is(isbn)(#[trigger] books[j]) by {}
    lemma_first_index_none(books, isbn_is(isbn));
}

/// Where no two books share an ISBN, a deleted ISBN is found no more.
pub proof fn law_delete_then_find(books: Seq<BookView>, isbn: Isbn)
    requires
        forall|i: int, j: int|
            0 <= i < books.len() && 0 <= j < books.len() && i != j ==> (#[trigger] books[i]).info.isbn
                != (#[trigger] books[j]).info.isbn,
    ensures
        find_first(spec_delete_book(books, isbn), isbn_is(isbn)) is None,
{
    lemma_first_index(books, isbn_is(isbn));
    let t = spec_delete_book(books, isbn);
    if let Some(k) = first_index(books, isbn_is(isbn)) {
        assert forall|j: int| 0 <= j < t.len() implies !isbn_is(isbn)(#[trigger] t[j]) by {
            if j < k {
                assert(t[j] == books[j]);
            } else {
                assert(t[j] == books[j + 1]);
            }
        }
    }
    lemma_first_index_none(t, isbn_is(isbn));
}

// ----------------------------------------------------------------------------
// Messages
// ----------------------------------------------------------------------------

/// The message that adds a book to the shelf.
pub struct Add {
    pub title: String,
    pub page_count: i32,
    pub isbn: Isbn,
}

/// The message that looks a book up by ISBN.
pub struct SearchFromIsbn(pub Isbn);

/// Where the information on a book came from.
#[derive(Debug, PartialEq, Eq, Structural, Clone, Copy)]
pub enum BookInfoLocation {
    Network,
    InMemory,
}

impl BookInfoLocation {
    /// The name of the source.
    pub open spec fn spec_name(self) -> Seq<char> {
        match self {
            BookInfoLocation::Network => "network"@,
            BookInfoLocation::InMemory => "inmemory"@,
        }
    }

    /// The name of the source: `network` or `inmemory`.
    pub fn to_string(&self) -> (r: String)
        ensures
            r@ == self.spec_name(),
    {
        match self {
            BookInfoLocation::Network => String::from_str("network"),
            BookInfoLocation::InMemory => String::from_str("inmemory"),
        }
    }
}

/// A book's information together with where it came from.
pub type BookAndLocation = (BookInfo, BookInfoLocation);

// ----------------------------------------------------------------------------
// The book service's answers
// ----------------------------------------------------------------------------

/// An identifier of an edition, such as its ISBN-13.
#[derive(Debug)]
pub struct IndustryIdentifier {
    pub identifier_type: String,
    pub identifier: String,
}

/// What the book service tells of an edition.
#[derive(Debug)]
pub struct VolumeInfo {
    pub title: String,
    pub page_count: i32,
    pub industry_identifiers: Vec<IndustryIdentifier>,
}

/// One edition in the book service's answer.
#[derive(Debug)]
pub struct Volume {
    pub id: String,
    pub volume_info: VolumeInfo,
}

/// The book service's answer to a search.
#[derive(Debug)]
pub struct Volumes {
    pub items: Vec<Volume>,
}

/// The book service's answer names no ISBN-13.
#[derive(Debug, PartialEq, Eq, Structural, Clone, Copy)]
pub enum BookApiError {
    NotFound,
}

impl BookApiError {
    /// The text that describes the error.
    pub fn to_string(&self) -> (r: String)
        ensures
            r@ == "ISBN13 not found"@,
    {
        String::from_str("ISBN13 not found")
    }
}

/// Why an edition could not be read as a book.
#[derive(Debug)]
pub enum BookInfoError {
    Api(BookApiError),
    Isbn(IsbnError),
}

/// `BookInfoError` with its text taken as characters.
pub enum BookInfoErrorView {
    Api(BookApiError),
    Isbn(IsbnErrorView),
}

impl View for BookInfoError {
    type V = BookInfoErrorView;

    open spec fn view(&self) -> BookInfoErrorView {
        match self {
            BookInfoError::Api(e) => BookInfoErrorView::Api(*e),
            BookInfoError::Isbn(e) => BookInfoErrorView::Isbn(e@),
        }
    }
}

impl BookInfoErrorView {
    /// The text that describes the error.
    pub open spec fn spec_text(self) -> Seq<char> {
        match self {
            BookInfoErrorView::Api(_) => "ISBN13 not found"@,
            BookInfoErrorView::Isbn(e) => e.spec_text(),
        }
    }
}

impl BookInfoError {
    /// The text that describes the error.
    pub fn to_string(&self) -> (r: String)
        ensures
            r@ == self@.spec_text(),
    {
        match self {
            BookInfoError::Api(e) => e.to_string(),
            BookInfoError::Isbn(e) => e.to_string(),
        }
    }
}

/// The outcome of reading an edition, taken by its view.
pub open spec fn book_info_result_view(r: Result<BookInfo, BookInfoError>) -> Result<
    BookInfoView,
    BookInfoErrorView,
> {
    match r {
        Ok(b) => Ok(b@),
        Err(e) => Err(e@),
    }
}

/// Identifiers of the kind ISBN_13.
pub open spec fn isbn13_kind() -> spec_fn(IndustryIdentifier) -> bool {
    |i: IndustryIdentifier| i.identifier_type@ == "ISBN_13"@
}

/// What reading `item` as a book gives: its title and page count with the
/// ISBN of its first ISBN_13 identifier.
pub open spec fn spec_book_info_from(item: Volume) -> Result<BookInfoView, BookInfoErrorView> {
    match find_first(item.volume_info.industry_identifiers@, isbn13_kind()) {
        None => Err(BookInfoErrorView::Api(BookApiError::NotFound)),
        Some(ident) => match Isbn::spec_try_from(ident.identifier@) {
            Ok(isbn) => Ok(
                BookInfoView {
                    title: item.volume_info.title@,
                    page_count: item.volume_info.page_count,
                    isbn,
                },
            ),
            Err(e) => Err(BookInfoErrorView::Isbn(e)),
        },
    }
}

impl BookInfo {
    /// Reads an edition from the book service as a book.
    pub fn try_from(item: Volume) -> (r: Result<Self, BookInfoError>)
        ensures
            book_info_result_view(r) == spec_book_info_from(item),
    {
        let key = String::from_str("ISBN_13");
        let idents = &item.volume_info.industry_identifiers;
        let mut i: usize = 0;
        while i < idents.len() && !(idents[i].identifier_type == key)
            invariant
                i <= idents@.len(),
                key@ == "ISBN_13"@,
                forall|j: int| 0 <= j < i ==> !isbn13_kind()(#[trigger] idents@[j]),
            decreases idents@.len() - i,
        {
            i = i + 1;
        }
        let found = if i < idents.len() {
            Some(i)
        } else {
            None
        };
        match found {
            Some(k) => {
                proof {
                    lemma_first_index_at(idents@, isbn13_kind(), k as int);
                }
                match Isbn::try_from(idents[k].identifier.clone()) {
                    Ok(isbn) => Ok(
                        BookInfo {
                            title: item.volume_info.title,
                            page_count: item.volume_info.page_count,
                            isbn,
                        },
                    ),
                    Err(e) => Err(BookInfoError::Isbn(e)),
                }
            },
            None => {
                proof {
                    lemma_first_index_none(idents@, isbn13_kind());
                }
                Err(BookInfoError::Api(BookApiError::NotFound))
            },
        }
    }
}

impl Volumes {
    /// The first edition of the answer read as a book, if the answer has
    /// any edition.
    pub fn first_book_info(self) -> (r: Option<Result<BookInfo, BookInfoError>>)
        ensures
            match r {
                Some(x) => self.items@.len() > 0 && book_info_result_view(x) == spec_book_info_from(
                    self.items@[0],
                ),
                None => self.items@.len() == 0,
            },
    {
        let mut items = self.items;
        if items.len() == 0 {
            None
        } else {
            let first = items.remove(0);
            Some(BookInfo::try_from(first))
        }
    }
}

/// The address at which the book service is asked about `isbn`.
pub open spec fn spec_books_api_url(isbn: Isbn) -> Seq<char> {
    "https://www.googleapis.com/books/v1/volumes?q=isbn:"@ + decimal_digits(isbn.0 as nat)
}

/// The address at which the book service is asked about `isbn`.
pub fn books_api_url(isbn: Isbn) -> (r: String)
    ensures
        r@ == spec_books_api_url(isbn),
{
    let mut url = String::from_str("https://www.googleapis.com/books/v1/volumes?q=isbn:");
    push_decimal(isbn.0, &mut url);
    url
}

} // verus!
