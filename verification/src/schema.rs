use vstd::prelude::*;

use rand::RngCore;

use crate::bookmark::{
    spec_progress_target, spec_upsert, upsert_fits, Bookmark as TBookmark,
    InMemoryBookmarksRepository,
};
use crate::bookshelf::{
    isbn_is, next_book_id, spec_add_book, Book as TBook, BookInfo as TBookInfo, BookInfoView,
    BookView, BooksRepository, InMemoryBooksRepository, Isbn as TIsbn, SearchFromIsbn,
};
use crate::decimal::decimal_digits;
use crate::seqs::find_first;
use crate::session::{InMemorySessionsRepository, SessionDigest, SessionsRepository};
use crate::user::{
    credentials_are, email_taken, next_user_id, spec_add_user, spec_find_books, AddUser, FindBooks,
    InMemoryUsersRepository, UsersRepository,
};

verus! {

/// What the resolvers of the GraphQL interface work on: the repositories and
/// the session of the request (its digest, and whether the digest was set
/// while the request ran and must be stored with the client).
pub struct Context {
    pub books_repository: InMemoryBooksRepository,
    pub users_repository: InMemoryUsersRepository,
    pub bookmarks_repository: InMemoryBookmarksRepository,
    pub sessions_repository: InMemorySessionsRepository,
    pub session_digest: (Option<SessionDigest>, bool),
}

/// An error answered to a GraphQL request: its message, and one entry of
/// extensions (a key and a text).
#[derive(Debug)]
pub struct FieldError {
    pub message: String,
    pub key: String,
    pub value: String,
}

/// A `FieldError` taken as its three texts.
pub type FieldErrorView = (Seq<char>, Seq<char>, Seq<char>);

impl View for FieldError {
    type V = FieldErrorView;

    open spec fn view(&self) -> FieldErrorView {
        (self.message@, self.key@, self.value@)
    }
}

impl FieldError {
    /// An error with the message `message` and the extension `key`: `value`.
    pub fn new(message: &str, key: &str, value: &str) -> (r: Self)
        ensures
            r@ == (message@, key@, value@),
    {
        FieldError {
            message: String::from_str(message),
            key: String::from_str(key),
            value: String::from_str(value),
        }
    }
}

/// The outcome of a resolver, with the error taken by its view.
pub open spec fn field_result_view<T>(r: Result<T, FieldError>) -> Result<T, FieldErrorView> {
    match r {
        Ok(t) => Ok(t),
        Err(e) => Err(e@),
    }
}

/// An ISBN as the GraphQL interface shows it.
#[derive(Debug)]
pub struct Isbn {
    pub code: String,
}

impl Isbn {
    /// The ISBN shown as its decimal text.
    pub fn from(value: TIsbn) -> (r: Self)
        ensures
            r.code@ == decimal_digits(value.0 as nat),
    {
        Isbn { code: value.to_string() }
    }
}

/// A book as the GraphQL interface shows it.
#[derive(Debug)]
pub struct Book {
    pub name: String,
    pub page: i32,
    pub isbn: Isbn,
    pub data_source: String,
}

/// Whether `b` shows the book `info`, found at `data_source`.
pub open spec fn shows_book(b: Book, info: BookInfoView, data_source: Seq<char>) -> bool {
    &&& b.name@ == info.title
    &&& b.page == info.page_count
    &&& b.isbn.code@ == decimal_digits(info.isbn.0 as nat)
    &&& b.data_source@ == data_source
}

impl TBookInfo {
    /// The book as the GraphQL interface shows it.
    pub fn into_graphql_book(self, data_source: String) -> (r: Book)
        ensures
            shows_book(r, self@, data_source@),
    {
        Book {
            name: self.title,
            page: self.page_count,
            isbn: Isbn::from(self.isbn),
            data_source,
        }
    }
}

/// A bookmark as the GraphQL interface shows it, with its book.
#[derive(Debug)]
pub struct Bookmark {
    pub id: i32,
    pub title: String,
    pub page_count: i32,
    pub isbn: Isbn,
    pub page_in_progress: i32,
}

/// Whether `r` shows the bookmark `mark` in the book `book`.
pub open spec fn shows_bookmark(r: Bookmark, book: BookView, mark: TBookmark) -> bool {
    &&& r.id == mark.id as i32
    &&& r.title@ == book.info.title
    &&& r.page_count == book.info.page_count
    &&& r.isbn.code@ == decimal_digits(book.info.isbn.0 as nat)
    &&& r.page_in_progress == mark.page_in_progress as i32
}

impl Bookmark {
    /// The bookmark `bookmark` shown with its book `book`; an error where
    /// the bookmark is in another book.
    pub fn new(book: TBook, bookmark: TBookmark) -> (r: Result<Self, String>)
        ensures
            book.id != bookmark.book_id ==> (r matches Err(m) && m@
                == "internal error book_id didn't match"@),
            book.id == bookmark.book_id ==> (r matches Ok(s) && shows_bookmark(s, book@, bookmark)),
    {
        if book.id != bookmark.book_id {
            return Err(String::from_str("internal error book_id didn't match"));
        } else {
            Ok(
                Bookmark {
                    id: bookmark.id as i32,
                    title: String::from_str(book.title()),
                    page_count: book.page_count(),
                    isbn: Isbn::from(book.isbn()),
                    page_in_progress: bookmark.page_in_progress as i32,
                },
            )
        }
    }
}

/// What `logged_in` answers: whether the session of the request is open, or
/// an error where the request has no session.
pub open spec fn spec_logged_in(sessions: Map<Seq<u8>, u32>, digest: Option<SessionDigest>) -> Result<
    bool,
    FieldErrorView,
> {
    match digest {
        None => Err(("session error"@, "session_error"@, "cannot get session_digest1"@)),
        Some(d) => Ok(sessions.contains_key(d@)),
    }
}

/// Whether every book is paired with a bookmark in that book.
pub open spec fn pairs_match(pairs: Seq<(BookView, TBookmark)>) -> bool {
    forall|i: int| 0 <= i < pairs.len() ==> (#[trigger] pairs[i]).0.id == pairs[i].1.book_id
}

/// The books of the user of the session `d`, with the user's bookmarks.
pub open spec fn session_books(context: Context, d: SessionDigest) -> Seq<(BookView, TBookmark)> {
    spec_find_books(
        context.bookmarks_repository@,
        context.books_repository@,
        context.sessions_repository@[d@],
    )
}

/// Whether `bookmarks` can answer: where the request has a session, it is
/// open, and the books of its user pair off with the user's bookmarks.
pub open spec fn spec_bookmarks_ready(context: Context) -> bool {
    match context.session_digest.0 {
        None => true,
        Some(d) => context.sessions_repository@.contains_key(d@) && pairs_match(
            session_books(context, d),
        ),
    }
}

/// Whether `progress` can record its report without running out of bookmark
/// ids: where the ISBN reads, the page is in range, the request has a session
/// and the report finds its user and book, the bookmark exists or a new one
/// gets an id that fits in 64 bits.
pub open spec fn spec_progress_fits(context: Context, isbn: Seq<char>, page_count: i32) -> bool {
    match (TIsbn::spec_try_from(isbn), context.session_digest.0) {
        (Ok(i), Some(d)) => 0 <= page_count <= u16::MAX ==> match spec_progress_target(
            context.sessions_repository@,
            context.users_repository@,
            context.books_repository@,
            d@,
            i,
        ) {
            Ok((u, b)) => upsert_fits(context.bookmarks_repository@, u, b),
            Err(_) => true,
        },
        _ => true,
    }
}

/// The GraphQL queries.
pub struct Query;

impl Query {
    /// The first step of `book_from_isbn`: reads the ISBN that the book
    /// service is then asked about.
    pub fn book_from_isbn_request(isbn: String) -> (r: Result<TIsbn, FieldError>)
        ensures
            match TIsbn::spec_try_from(isbn@) {
                Ok(i) => r == Ok::<TIsbn, FieldError>(i),
                Err(_) => field_result_view(r) == Err::<TIsbn, FieldErrorView>(
                    ("isbn error"@, "isbn_error"@, "isbn error"@),
                ),
            },
    {
        match TIsbn::try_from(isbn) {
            Ok(isbn) => Ok(isbn),
            Err(_) => Err(FieldError::new("isbn error", "isbn_error", "isbn error")),
        }
    }

    /// The book with `isbn`, given what the book service answered for it
    /// (the book, or the text of the error): the book on the shelf where
    /// there is one, else the answer. An error of the service is answered
    /// whether or not the shelf has the book.
    pub fn book_from_isbn(context: &Context, isbn: TIsbn, network: Result<TBookInfo, String>) -> (r:
        Result<Book, FieldError>)
        ensures
            match network {
                Err(m) => field_result_view(r) == Err::<Book, FieldErrorView>(
                    (m@, "create_error"@, "create error"@),
                ),
                Ok(info) => r matches Ok(b) && match find_first(
                    context.books_repository@,
                    isbn_is(isbn),
                ) {
                    Some(found) => shows_book(b, found.info, "inmemory"@),
                    None => shows_book(b, info@, "network"@),
                },
            },
    {
        match network {
            Err(message) => Err(
                FieldError {
                    message,
                    key: String::from_str("create_error"),
                    value: String::from_str("create error"),
                },
            ),
            Ok(info) => {
                let book_info = context.books_repository.handle_search_from_isbn(
                    SearchFromIsbn(isbn),
                    info,
                );
                let location = book_info.1.to_string();
                Ok(book_info.0.into_graphql_book(location))
            },
        }
    }

    /// Whether the session of the request is open.
    pub fn logged_in(context: &Context) -> (r: Result<bool, FieldError>)
        ensures
            field_result_view(r) == spec_logged_in(
                context.sessions_repository@,
                context.session_digest.0,
            ),
    {
        match context.session_digest.0 {
            Some(session_digest) => Ok(
                context.sessions_repository.find_session(session_digest).is_some(),
            ),
            None => Err(
                FieldError::new("session error", "session_error", "cannot get session_digest1"),
            ),
        }
    }

    /// Whether `bookmarks` can answer the request (see `spec_bookmarks_ready`).
    pub fn bookmarks_ready(context: &Context) -> (r: bool)
        ensures
            r == spec_bookmarks_ready(*context),
    {
        match context.session_digest.0 {
            None => true,
            Some(session_digest) => match context.sessions_repository.find_session(
                session_digest,
            ) {
                None => false,
                Some(user_id) => {
                    let pairs = context.users_repository.handle_find_books(
                        FindBooks { user_id: *user_id },
                        &context.bookmarks_repository,
                        &context.books_repository,
                    );
                    let ghost want = session_books(*context, session_digest);
                    let mut i: usize = 0;
                    while i < pairs.len()
                        invariant
                            context.session_digest.0 == Some(session_digest),
                            context.sessions_repository@.contains_key(session_digest@),
                            want == session_books(*context, session_digest),
                            i <= pairs@.len(),
                            want.len() == pairs@.len(),
                            forall|j: int| 0 <= j < pairs@.len() ==> (#[trigger] want[j]).0.id
                                == pairs@[j].0.id && want[j].1 == pairs@[j].1,
                            forall|j: int| 0 <= j < i ==> (#[trigger] want[j]).0.id
                                == want[j].1.book_id,
                        decreases pairs@.len() - i,
                    {
                        if pairs[i].0.id != pairs[i].1.book_id {
                            assert(want[i as int].0.id != want[i as int].1.book_id);
                            return false;
                        }
                        i = i + 1;
                    }
                    true
                },
            },
        }
    }

    /// The bookmarks of the user of the request's session, each with its
    /// book; an error where the request has no session.
    pub fn bookmarks(context: &Context) -> (r: Result<Vec<Bookmark>, FieldError>)
        requires
            spec_bookmarks_ready(*context),
        ensures
            match context.session_digest.0 {
                None => field_result_view(r) == Err::<Vec<Bookmark>, FieldErrorView>(
                    ("session error"@, "session_error"@, "cannot get session_digest1"@),
                ),
                Some(d) => r matches Ok(v) && v@.len() == session_books(*context, d).len() && (
                forall|i: int|
                    0 <= i < v@.len() ==> shows_bookmark(
                        #[trigger] v@[i],
                        session_books(*context, d)[i].0,
                        session_books(*context, d)[i].1,
                    )),
            },
    {
        match context.session_digest.0 {
            None => Err(
                FieldError::new("session error", "session_error", "cannot get session_digest1"),
            ),
            Some(session_digest) => {
                let user_id = match context.sessions_repository.find_session(session_digest) {
                    Some(user_id) => *user_id,
                    None => 0,
                };
                let pairs = context.users_repository.handle_find_books(
                    FindBooks { user_id },
                    &context.bookmarks_repository,
                    &context.books_repository,
                );
                let ghost want = session_books(*context, session_digest);
                let mut r: Vec<Bookmark> = Vec::new();
                let mut i: usize = 0;
                while i < pairs.len()
                    invariant
                        i <= pairs@.len(),
                        want.len() == pairs@.len(),
                        pairs_match(want),
                        forall|j: int| 0 <= j < pairs@.len() ==> (#[trigger] want[j]).0
                            == pairs@[j].0@ && want[j].1 == pairs@[j].1,
                        r@.len() == i,
                        forall|j: int|
                            0 <= j < i ==> shows_bookmark(#[trigger] r@[j], want[j].0, want[j].1),
                    decreases pairs@.len() - i,
                {
                    assert(want[i as int].0 == pairs@[i as int].0@);
                    let shown = Bookmark::new(pairs[i].0.clone(), pairs[i].1);
                    match shown {
                        Ok(b) => {
                            r.push(b);
                        },
                        Err(_) => {
                            assert(false);
                        },
                    }
                    i = i + 1;
                }
                Ok(r)
            },
        }
    }
}

/// Fills 20 bytes from the operating system's random source, by
/// `rand::rngs::OsRng` and `rand::RngCore::try_fill_bytes` (which asks
/// `getrandom` and hands back its error rather than panicking). Nothing is
/// promised of the bytes: they are random; `None` where the source failed.
#[verifier::external_body]
fn random_session_digest() -> Option<SessionDigest> {
    let mut arr = [0u8; 20];
    match rand::rngs::OsRng.try_fill_bytes(&mut arr[..]) {
        Ok(()) => Some(arr),
        Err(_) => None,
    }
}

/// The GraphQL mutations.
pub struct Mutation;

impl Mutation {
    /// Puts a book on the shelf, where `isbn` is an ISBN-13.
    pub fn create_book(context: &mut Context, title: String, page_count: i32, isbn: String) -> (r:
        Result<bool, FieldError>)
        requires
            TIsbn::spec_try_from(isbn@) is Ok ==> next_book_id(old(context).books_repository@)
                <= u32::MAX,
        ensures
            final(context).users_repository == old(context).users_repository,
            final(context).bookmarks_repository == old(context).bookmarks_repository,
            final(context).sessions_repository == old(context).sessions_repository,
            final(context).session_digest == old(context).session_digest,
            match TIsbn::spec_try_from(isbn@) {
                Ok(i) => r == Ok::<bool, FieldError>(true) && final(context).books_repository@
                    == spec_add_book(
                    old(context).books_repository@,
                    (BookInfoView { title: title@, page_count, isbn: i }),
                ),
                Err(_) => field_result_view(r) == Err::<bool, FieldErrorView>(
                    ("isbn error"@, "isbn_error"@, "isbn error"@),
                ) && final(context).books_repository == old(context).books_repository,
            },
    {
        match TIsbn::try_from(isbn) {
            Ok(isbn) => {
                context.books_repository.handle_add(
                    crate::bookshelf::Add { title, page_count, isbn },
                );
                Ok(true)
            },
            Err(_) => Err(FieldError::new("isbn error", "isbn_error", "isbn error")),
        }
    }

    /// Registers a user. The answer is `true` also where the address was
    /// taken and nobody was registered.
    pub fn create_user(context: &mut Context, email: String, password: String) -> (r: Result<
        bool,
        FieldError,
    >)
        requires
            !email_taken(old(context).users_repository@, email@) ==> next_user_id(
                old(context).users_repository@,
            ) <= u32::MAX,
        ensures
            r == Ok::<bool, FieldError>(true),
            final(context).users_repository@ == spec_add_user(
                old(context).users_repository@,
                email@,
                password@,
            ),
            final(context).books_repository == old(context).books_repository,
            final(context).bookmarks_repository == old(context).bookmarks_repository,
            final(context).sessions_repository == old(context).sessions_repository,
            final(context).session_digest == old(context).session_digest,
    {
        context.users_repository.handle_add_user(AddUser { email, password });
        Ok(true)
    }

    /// Logs in with `email` and `password` under the session digest
    /// `digest`: where a user has these credentials, the request's session
    /// becomes `digest` (to be stored with the client) and the session opens
    /// for the user.
    pub fn login_with_digest(
        context: &mut Context,
        email: String,
        password: String,
        digest: SessionDigest,
    ) -> (r: Result<bool, FieldError>)
        ensures
            final(context).books_repository == old(context).books_repository,
            final(context).users_repository == old(context).users_repository,
            final(context).bookmarks_repository == old(context).bookmarks_repository,
            match find_first(old(context).users_repository@, credentials_are(email@, password@)) {
                Some(u) => r == Ok::<bool, FieldError>(true) && final(context).session_digest == (
                Some(digest), true) && final(context).sessions_repository@ == old(context).sessions_repository@.insert(digest@, u.id),
                None => r == Ok::<bool, FieldError>(false) && final(context).session_digest
                    == old(context).session_digest && final(context).sessions_repository == old(context).sessions_repository,
            },
    {
        let user_id = match context.users_repository.find_by_user_info(email, password) {
            Some(user) => user.id,
            None => {
                return Ok(false);
            },
        };
        context.session_digest = (Some(digest), true);
        context.sessions_repository.handle_add(
            crate::session::Add { session_digest: digest, user_id },
        );
        Ok(true)
    }

    /// Logs in with `email` and `password`: where a user has these
    /// credentials, a new random session digest becomes the request's
    /// session and opens for the user. Where the random source fails, the
    /// answer is an error and nothing changes.
    pub fn login(context: &mut Context, email: String, password: String) -> (r: Result<
        bool,
        FieldError,
    >)
        ensures
            final(context).books_repository == old(context).books_repository,
            final(context).users_repository == old(context).users_repository,
            final(context).bookmarks_repository == old(context).bookmarks_repository,
            match find_first(old(context).users_repository@, credentials_are(email@, password@)) {
                Some(u) => (r == Ok::<bool, FieldError>(true) && final(context).session_digest.1
                    && (final(context).session_digest.0 matches Some(d) && final(context).sessions_repository@ == old(context).sessions_repository@.insert(d@, u.id)))
                    || (field_result_view(r) == Err::<bool, FieldErrorView>(
                    ("random source error"@, "login"@, "login_error"@),
                ) && final(context).session_digest == old(context).session_digest
                    && final(context).sessions_repository == old(context).sessions_repository),
                None => r == Ok::<bool, FieldError>(false) && final(context).session_digest
                    == old(context).session_digest && final(context).sessions_repository == old(context).sessions_repository,
            },
    {
        let found = context.users_repository.find_by_user_info(email.clone(), password.clone()).is_some();
        if !found {
            return Ok(false);
        }
        match random_session_digest() {
            Some(digest) => Self::login_with_digest(context, email, password, digest),
            None => Err(FieldError::new("random source error", "login", "login_error")),
        }
    }

    /// Whether `progress` can run on these arguments (see
    /// `spec_progress_fits`).
    pub fn progress_fits(context: &Context, isbn: String, page_count: i32) -> (r: bool)
        ensures
            r == spec_progress_fits(*context, isbn@, page_count),
    {
        let isbn = match TIsbn::try_from(isbn) {
            Ok(isbn) => isbn,
            Err(_) => {
                return true;
            },
        };
        let session_digest = match context.session_digest.0 {
            Some(session_digest) => session_digest,
            None => {
                return true;
            },
        };
        if !(0 <= page_count && page_count <= 65535) {
            return true;
        }
        let user = match context.sessions_repository.find_session(session_digest) {
            Some(user_id) => context.users_repository.find_by_id(*user_id),
            None => None,
        };
        let book = context.books_repository.find_by_isbn(isbn);
        match (user, book) {
            (Some(user), Some(book)) => context.bookmarks_repository.can_record(user.id, book.id),
            _ => true,
        }
    }

    /// Records how far the user of the request's session has read in the
    /// book with `isbn`.
    pub fn progress(context: &mut Context, isbn: String, page_count: i32) -> (r: Result<
        bool,
        FieldError,
    >)
        requires
            spec_progress_fits(*old(context), isbn@, page_count),
        ensures
            final(context).books_repository == old(context).books_repository,
            final(context).users_repository == old(context).users_repository,
            final(context).sessions_repository == old(context).sessions_repository,
            final(context).session_digest == old(context).session_digest,
            match TIsbn::spec_try_from(isbn@) {
                Err(_) => field_result_view(r) == Err::<bool, FieldErrorView>(
                    ("isbn error"@, "progress error"@, "isbn error"@),
                ) && final(context).bookmarks_repository == old(context).bookmarks_repository,
                Ok(i) => if !(0 <= page_count <= u16::MAX) {
                    field_result_view(r) == Err::<bool, FieldErrorView>(
                        ("page range error"@, "progress"@, "progress_error"@),
                    ) && final(context).bookmarks_repository == old(context).bookmarks_repository
                } else {
                    match old(context).session_digest.0 {
                        None => field_result_view(r) == Err::<bool, FieldErrorView>(
                            ("session digest error"@, "progress"@, "session_digest_error"@),
                        ) && final(context).bookmarks_repository == old(context).bookmarks_repository,
                        Some(d) => match spec_progress_target(
                            old(context).sessions_repository@,
                            old(context).users_repository@,
                            old(context).books_repository@,
                            d@,
                            i,
                        ) {
                            Ok((u, b)) => r == Ok::<bool, FieldError>(true) && final(context).bookmarks_repository@ == spec_upsert(
                                old(context).bookmarks_repository@,
                                u,
                                b,
                                page_count as u16,
                            ),
                            Err(_) => field_result_view(r) == Err::<bool, FieldErrorView>(
                                ("progress error"@, "progress"@, "progress_error"@),
                            ) && final(context).bookmarks_repository@ == old(context).bookmarks_repository@,
                        },
                    }
                },
            },
    {
        let isbn = match TIsbn::try_from(isbn) {
            Ok(isbn) => isbn,
            Err(_) => {
                return Err(FieldError::new("isbn error", "progress error", "isbn error"));
            },
        };
        let page_in_progress: u16 = if 0 <= page_count && page_count <= 65535 {
            page_count as u16
        } else {
            return Err(FieldError::new("page range error", "progress", "progress_error"));
        };
        let session_digest = match context.session_digest.0 {
            Some(session_digest) => session_digest,
            None => {
                return Err(
                    FieldError::new("session digest error", "progress", "session_digest_error"),
                );
            },
        };
        let res = context.bookmarks_repository.handle_progress(
            crate::bookmark::Progress { isbn, page_in_progress, session_digest },
            &context.sessions_repository,
            &context.users_repository,
            &context.books_repository,
        );
        match res {
            Ok(()) => Ok(true),
            Err(_) => Err(FieldError::new("progress error", "progress", "progress_error")),
        }
    }
}

/// After a login under the digest `d`, the request's session is open:
/// `logged_in` answers `true`.
pub proof fn law_login_then_logged_in(sessions: Map<Seq<u8>, u32>, d: SessionDigest, user_id: u32)
    ensures
        spec_logged_in(sessions.insert(d@, user_id), Some(d)) == Ok::<bool, FieldErrorView>(true),
{
}

} // verus!
