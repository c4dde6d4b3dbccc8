use vstd::prelude::*;

use crate::bookshelf::{isbn_is, BooksRepository, BookView, InMemoryBooksRepository, Isbn};
use crate::decimal::{decimal_digits, push_decimal};
use crate::seqs::{
    find_first, first_index, lemma_first_index, lemma_first_index_at, lemma_first_index_none,
    lemma_max_key, max_key,
};
use crate::session::{InMemorySessionsRepository, SessionDigest, SessionsRepository};
use crate::user::{user_id_is, InMemoryUsersRepository, UserView, UsersRepository};

verus! {

/// How far a user has read in a book.
#[derive(Clone, Copy, PartialEq, Eq, Structural, Debug)]
pub struct Bookmark {
    pub id: u64,
    pub user_id: u32,
    pub book_id: u32,
    pub page_in_progress: u16,
}

/// Why reading progress could not be recorded.
#[derive(Clone, Copy, PartialEq, Eq, Structural, Debug)]
pub enum ProgressBookmarkRepositoryError {
    SessionNotFoundError,
    UserNotFoundError,
    BookNotFoundError(Isbn),
    PageCountOverFlowError(u16, u16),
}

impl ProgressBookmarkRepositoryError {
    /// The text that describes the error.
    pub open spec fn spec_text(self) -> Seq<char> {
        match self {
            ProgressBookmarkRepositoryError::SessionNotFoundError => "Session Not Found"@,
            ProgressBookmarkRepositoryError::UserNotFoundError => "User Not Found"@,
            ProgressBookmarkRepositoryError::BookNotFoundError(_) => "Book Not Found"@,
            ProgressBookmarkRepositoryError::PageCountOverFlowError(entered, max) =>
                "page_cuont max is "@ + decimal_digits(max as nat) + ", but entered "@
                    + decimal_digits(entered as nat),
        }
    }

    /// The text that describes the error.
    pub fn to_string(&self) -> (r: String)
        ensures
            r@ == self.spec_text(),
    {
        match self {
            ProgressBookmarkRepositoryError::SessionNotFoundError => String::from_str(
                "Session Not Found",
            ),
            ProgressBookmarkRepositoryError::UserNotFoundError => String::from_str(
                "User Not Found",
            ),
            ProgressBookmarkRepositoryError::BookNotFoundError(_) => String::from_str(
                "Book Not Found",
            ),
            ProgressBookmarkRepositoryError::PageCountOverFlowError(entered, max) => {
                let mut text = String::from_str("page_cuont max is ");
                push_decimal(*max as u64, &mut text);
                text.append(", but entered ");
                push_decimal(*entered as u64, &mut text);
                text
            },
        }
    }
}

/// The bookmarks of the user `user_id` in the book `book_id`.
pub open spec fn bookmark_of(user_id: u32, book_id: u32) -> spec_fn(Bookmark) -> bool {
    |m: Bookmark| m.user_id == user_id && m.book_id == book_id
}

/// The bookmarks of the user `user_id`.
pub open spec fn bookmark_user_is(user_id: u32) -> spec_fn(Bookmark) -> bool {
    |m: Bookmark| m.user_id == user_id
}

/// The id of a bookmark, as the key by which new ids are chosen.
pub open spec fn bookmark_key() -> spec_fn(Bookmark) -> int {
    |m: Bookmark| m.id as int
}

/// The id that the next new bookmark gets: one more than the greatest id so
/// far, or 1 where there is no bookmark.
pub open spec fn next_bookmark_id(marks: Seq<Bookmark>) -> int {
    max_key(marks, bookmark_key()) + 1
}

/// The bookmarks after the user `user_id` reached page `page` of the book
/// `book_id`: the first bookmark of that user in that book moves to the page,
/// or, where there is none, a new one is added under the next id.
pub open spec fn spec_upsert(marks: Seq<Bookmark>, user_id: u32, book_id: u32, page: u16) -> Seq<
    Bookmark,
> {
    match first_index(marks, bookmark_of(user_id, book_id)) {
        Some(i) => marks.update(i, Bookmark { page_in_progress: page, ..marks[i] }),
        None => marks.push(
            Bookmark {
                id: next_bookmark_id(marks) as u64,
                user_id,
                book_id,
                page_in_progress: page,
            },
        ),
    }
}

/// Whether recording progress of `user_id` in `book_id` can give a new
/// bookmark an id that fits in 64 bits, where it needs one.
pub open spec fn upsert_fits(marks: Seq<Bookmark>, user_id: u32, book_id: u32) -> bool {
    first_index(marks, bookmark_of(user_id, book_id)) is Some || next_bookmark_id(marks)
        <= u64::MAX
}

/// The user and the book that a progress report is about: the user of the
/// session `digest` and the first book with `isbn`; or why there is none.
pub open spec fn spec_progress_target(
    sessions: Map<Seq<u8>, u32>,
    users: Seq<UserView>,
    books: Seq<BookView>,
    digest: Seq<u8>,
    isbn: Isbn,
) -> Result<(u32, u32), ProgressBookmarkRepositoryError> {
    let user = if sessions.contains_key(digest) {
        find_first(users, user_id_is(sessions[digest]))
    } else {
        None
    };
    match user {
        None => Err(ProgressBookmarkRepositoryError::UserNotFoundError),
        Some(u) => match find_first(books, isbn_is(isbn)) {
            None => Err(ProgressBookmarkRepositoryError::BookNotFoundError(isbn)),
            Some(b) => Ok((u.id, b.id)),
        },
    }
}

/// The bookmarks of all users.
pub struct InMemoryBookmarksRepository(Vec<Bookmark>);

impl View for InMemoryBookmarksRepository {
    type V = Seq<Bookmark>;

    closed spec fn view(&self) -> Seq<Bookmark> {
        self.0@
    }
}

impl InMemoryBookmarksRepository {
    /// A repository without bookmarks.
    pub fn new() -> (r: Self)
        ensures
            r@ == Seq::<Bookmark>::empty(),
    {
        InMemoryBookmarksRepository(Vec::new())
    }

    /// The id that the next new bookmark gets, if it fits in 64 bits.
    pub fn next_id(&self) -> (r: Option<u64>)
        ensures
            r == if next_bookmark_id(self@) <= u64::MAX {
                Some(next_bookmark_id(self@) as u64)
            } else {
                None::<u64>
            },
    {
        let mut max: u64 = 0;
        let n = self.0.len();
        let mut i: usize = 0;
        while i < n
            invariant
                n == self@.len(),
                i <= n,
                max as int == max_key(self@.take(i as int), bookmark_key()),
            decreases n - i,
        {
            proof {
                assert(self@.take(i as int + 1).drop_last() =~= self@.take(i as int));
                assert(self@.take(i as int + 1).last() == self@[i as int]);
            }
            if self.0[i].id > max {
                max = self.0[i].id;
            }
            i = i + 1;
        }
        assert(self@.take(n as int) =~= self@);
        if max == u64::MAX {
            None
        } else {
            Some(max + 1)
        }
    }

    /// Whether progress of the user `user_id` in the book `book_id` can be
    /// recorded: the bookmark exists, or a new one gets an id that fits in
    /// 64 bits.
    pub fn can_record(&self, user_id: u32, book_id: u32) -> (r: bool)
        ensures
            r == upsert_fits(self@, user_id, book_id),
    {
        let mut i: usize = 0;
        while i < self.0.len() && !(self.0[i].user_id == user_id && self.0[i].book_id == book_id)
            invariant
                i <= self@.len(),
                forall|j: int| 0 <= j < i ==> !bookmark_of(user_id, book_id)(#[trigger] self@[j]),
            decreases self@.len() - i,
        {
            i = i + 1;
        }
        if i < self.0.len() {
            proof {
                lemma_first_index_at(self@, bookmark_of(user_id, book_id), i as int);
            }
            true
        } else {
            proof {
                lemma_first_index_none(self@, bookmark_of(user_id, book_id));
            }
            self.next_id().is_some()
        }
    }

    /// Records that the user `user_id` reached page `page` of the book
    /// `book_id`.
    pub fn upsert(&mut self, user_id: u32, book_id: u32, page: u16)
        requires
            upsert_fits(old(self)@, user_id, book_id),
        ensures
            final(self)@ == spec_upsert(old(self)@, user_id, book_id, page),
    {
        let mut i: usize = 0;
        while i < self.0.len() && !(self.0[i].user_id == user_id && self.0[i].book_id == book_id)
            invariant
                i <= self@.len(),
                forall|j: int| 0 <= j < i ==> !bookmark_of(user_id, book_id)(#[trigger] self@[j]),
            decreases self@.len() - i,
        {
            i = i + 1;
        }
        if i < self.0.len() {
            proof {
                lemma_first_index_at(self@, bookmark_of(user_id, book_id), i as int);
            }
            let mut bookmark = self.0[i];
            bookmark.page_in_progress = page;
            self.0.set(i, bookmark);
        } else {
            proof {
                lemma_first_index_none(self@, bookmark_of(user_id, book_id));
            }
            let id = match self.next_id() {
                Some(id) => id,
                None => 1,
            };
            self.0.push(Bookmark { id, user_id, book_id, page_in_progress: page });
        }
    }

    /// Handles the message that reports reading progress.
    pub fn handle_progress(
        &mut self,
        msg: Progress,
        sessions_repository: &InMemorySessionsRepository,
        users_repository: &InMemoryUsersRepository,
        books_repository: &InMemoryBooksRepository,
    ) -> (r: Result<(), ProgressBookmarkRepositoryError>)
        requires
            match spec_progress_target(
                sessions_repository@,
                users_repository@,
                books_repository@,
                msg.session_digest@,
                msg.isbn,
            ) {
                Ok((u, b)) => upsert_fits(old(self)@, u, b),
                Err(_) => true,
            },
        ensures
            match spec_progress_target(
                sessions_repository@,
                users_repository@,
                books_repository@,
                msg.session_digest@,
                msg.isbn,
            ) {
                Ok((u, b)) => r == Ok::<(), ProgressBookmarkRepositoryError>(()) && final(self)@
                    == spec_upsert(old(self)@, u, b, msg.page_in_progress),
                Err(e) => r == Err::<(), ProgressBookmarkRepositoryError>(e) && final(self)@
                    == old(self)@,
            },
    {
        self.progress(
            msg.isbn,
            msg.page_in_progress,
            msg.session_digest,
            sessions_repository,
            users_repository,
            books_repository,
        )
    }

    /// The bookmarks of the user `user_id`, in the order they were made.
    pub fn find_by_user_id(&self, user_id: u32) -> (r: Vec<Bookmark>)
        ensures
            r@ == self@.filter(bookmark_user_is(user_id)),
    {
        let mut r: Vec<Bookmark> = Vec::new();
        let n = self.0.len();
        let mut i: usize = 0;
        while i < n
            invariant
                n == self@.len(),
                i <= n,
                r@ == self@.take(i as int).filter(bookmark_user_is(user_id)),
            decreases n - i,
        {
            proof {
                reveal(Seq::filter);
                assert(self@.take(i as int + 1).drop_last() =~= self@.take(i as int));
                assert(self@.take(i as int + 1).last() == self@[i as int]);
            }
            if self.0[i].user_id == user_id {
                r.push(self.0[i]);
            }
            i = i + 1;
        }
        assert(self@.take(n as int) =~= self@);
        r
    }
}

/// A store of bookmarks that records reading progress.
pub trait BookmarksRepository: View<V = Seq<Bookmark>> + Sized {
    /// Records that the user of the session `session_digest` reached page
    /// `page_in_progress` of the book with `isbn`. The user is looked up
    /// through the session, the book by its ISBN.
    fn progress(
        &mut self,
        isbn: Isbn,
        page_in_progress: u16,
        session_digest: SessionDigest,
        sessions_repository: &InMemorySessionsRepository,
        users_repository: &InMemoryUsersRepository,
        books_repository: &InMemoryBooksRepository,
    ) -> (r: Result<(), ProgressBookmarkRepositoryError>)
        requires
            match spec_progress_target(
                sessions_repository@,
                users_repository@,
                books_repository@,
                session_digest@,
                isbn,
            ) {
                Ok((u, b)) => upsert_fits(old(self)@, u, b),
                Err(_) => true,
            },
        ensures
            match spec_progress_target(
                sessions_repository@,
                users_repository@,
                books_repository@,
                session_digest@,
                isbn,
            ) {
                Ok((u, b)) => r == Ok::<(), ProgressBookmarkRepositoryError>(()) && final(self)@
                    == spec_upsert(old(self)@, u, b, page_in_progress),
                Err(e) => r == Err::<(), ProgressBookmarkRepositoryError>(e) && final(self)@
                    == old(self)@,
            },
    ;
}

impl BookmarksRepository for InMemoryBookmarksRepository {
    fn progress(
        &mut self,
        isbn: Isbn,
        page_in_progress: u16,
        session_digest: SessionDigest,
        sessions_repository: &InMemorySessionsRepository,
        users_repository: &InMemoryUsersRepository,
        books_repository: &InMemoryBooksRepository,
    ) -> (r: Result<(), ProgressBookmarkRepositoryError>) {
        let user = match sessions_repository.find_session(session_digest) {
            Some(user_id) => users_repository.find_by_id(*user_id),
            None => None,
        };
        let book = books_repository.find_by_isbn(isbn);
        let user = match user {
            Some(user) => user,
            None => {
                return Err(ProgressBookmarkRepositoryError::UserNotFoundError);
            },
        };
        let book = match book {
            Some(book) => book,
            None => {
                return Err(ProgressBookmarkRepositoryError::BookNotFoundError(isbn));
            },
        };
        self.upsert(user.id, book.id, page_in_progress);
        Ok(())
    }
}

/// The message that reports how far the user of a session has read in a book.
pub struct Progress {
    pub isbn: Isbn,
    pub page_in_progress: u16,
    pub session_digest: SessionDigest,
}

/// After progress is recorded, the bookmark of that user in that book is at
/// the page reported, and there is at most one bookmark more than before.
pub proof fn law_progress_then_find(marks: Seq<Bookmark>, user_id: u32, book_id: u32, page: u16)
    requires
        upsert_fits(marks, user_id, book_id),
    ensures
        find_first(spec_upsert(marks, user_id, book_id, page), bookmark_of(user_id, book_id)) matches Some(
            m,
        ) && m.page_in_progress == page && m.user_id == user_id && m.book_id == book_id,
        marks.len() <= spec_upsert(marks, user_id, book_id, page).len() <= marks.len() + 1,
{
    let t = spec_upsert(marks, user_id, book_id, page);
    let p = bookmark_of(user_id, book_id);
    lemma_first_index(marks, p);
    match first_index(marks, p) {
        Some(i) => {
            assert forall|j: int| 0 <= j < i implies !p(#[trigger] t[j]) by {
                assert(t[j] == marks[j]);
            }
            lemma_first_index_at(t, p, i);
        },
        None => {
            assert forall|j: int| 0 <= j < marks.len() implies !p(#[trigger] t[j]) by {
                assert(t[j] == marks[j]);
            }
            lemma_first_index_at(t, p, marks.len() as int);
        },
    }
}

/// Where the user already has a bookmark in the book, recording progress
/// moves the first such bookmark to the page reported and changes no other
/// bookmark at all.
pub proof fn law_upsert_changes_only_its_bookmark(
    marks: Seq<Bookmark>,
    user_id: u32,
    book_id: u32,
    page: u16,
    k: int,
)
    requires
        0 <= k < marks.len(),
        marks[k].user_id == user_id && marks[k].book_id == book_id,
        forall|j: int|
            0 <= j < k ==> !((#[trigger] marks[j]).user_id == user_id && marks[j].book_id
                == book_id),
    ensures
        spec_upsert(marks, user_id, book_id, page).len() == marks.len(),
        spec_upsert(marks, user_id, book_id, page)[k] == (Bookmark {
            id: marks[k].id,
            user_id,
            book_id,
            page_in_progress: page,
        }),
        forall|j: int|
            0 <= j < marks.len() && j != k ==> #[trigger] spec_upsert(
                marks,
                user_id,
                book_id,
                page,
            )[j] == marks[j],
{
    assert forall|j: int| 0 <= j < k implies !bookmark_of(user_id, book_id)(#[trigger] marks[j]) by {}
    lemma_first_index_at(marks, bookmark_of(user_id, book_id), k);
}

/// Where the user has no bookmark in the book, recording progress keeps every
/// bookmark as it was and adds one of that user in that book at the page
/// reported, under an id greater than every id so far.
pub proof fn law_upsert_adds_new_bookmark(marks: Seq<Bookmark>, user_id: u32, book_id: u32, page: u16)
    requires
        forall|j: int|
            0 <= j < marks.len() ==> !((#[trigger] marks[j]).user_id == user_id && marks[j].book_id
                == book_id),
        next_bookmark_id(marks) <= u64::MAX,
    ensures
        spec_upsert(marks, user_id, book_id, page).len() == marks.len() + 1,
        forall|j: int|
            0 <= j < marks.len() ==> #[trigger] spec_upsert(marks, user_id, book_id, page)[j]
                == marks[j],
        spec_upsert(marks, user_id, book_id, page).last().user_id == user_id,
        spec_upsert(marks, user_id, book_id, page).last().book_id == book_id,
        spec_upsert(marks, user_id, book_id, page).last().page_in_progress == page,
        forall|j: int|
            0 <= j < marks.len() ==> (#[trigger] marks[j]).id < spec_upsert(
                marks,
                user_id,
                book_id,
                page,
            ).last().id,
{
    assert forall|j: int| 0 <= j < marks.len() implies !bookmark_of(user_id, book_id)(
        #[trigger] marks[j],
    ) by {}
    lemma_first_index_none(marks, bookmark_of(user_id, book_id));
    lemma_max_key(marks, bookmark_key());
    assert forall|j: int| 0 <= j < marks.len() implies (#[trigger] marks[j]).id < spec_upsert(
        marks,
        user_id,
        book_id,
        page,
    ).last().id by {
        assert(bookmark_key()(marks[j]) <= max_key(marks, bookmark_key()));
    }
}

/// A progress report is about the user that its session belongs to and the
/// first book on the shelf with its ISBN: where both exist, those are the
/// user's id and that book's id.
pub proof fn law_progress_target_is_found_book(
    sessions: Map<Seq<u8>, u32>,
    users: Seq<UserView>,
    books: Seq<BookView>,
    digest: Seq<u8>,
    isbn: Isbn,
    u: int,
    k: int,
)
    requires
        sessions.contains_key(digest),
        0 <= u < users.len(),
        users[u].id == sessions[digest],
        0 <= k < books.len(),
        books[k].info.isbn == isbn,
        forall|j: int| 0 <= j < k ==> (#[trigger] books[j]).info.isbn != isbn,
    ensures
        spec_progress_target(sessions, users, books, digest, isbn) == Ok::<
            (u32, u32),
            ProgressBookmarkRepositoryError,
        >((sessions[digest], books[k].id)),
{
    lemma_first_index(users, user_id_is(sessions[digest]));
    assert(user_id_is(sessions[digest])(users[u]));
    assert forall|j: int| 0 <= j < k implies !isbn_is(isbn)(#[trigger] books[j]) by {}
    lemma_first_index_at(books, isbn_is(isbn), k);
}

/// A progress report whose session is not open, or whose session's user is
/// not registered, finds no user; one whose ISBN no book has, finds no book.
pub proof fn law_progress_target_errors(
    sessions: Map<Seq<u8>, u32>,
    users: Seq<UserView>,
    books: Seq<BookView>,
    digest: Seq<u8>,
    isbn: Isbn,
)
    ensures
        (!sessions.contains_key(digest) || forall|j: int|
            0 <= j < users.len() ==> (#[trigger] users[j]).id != sessions[digest])
            ==> spec_progress_target(sessions, users, books, digest, isbn) == Err::<
            (u32, u32),
            ProgressBookmarkRepositoryError,
        >(ProgressBookmarkRepositoryError::UserNotFoundError),
        (sessions.contains_key(digest) && (exists|j: int|
            0 <= j < users.len() && (#[trigger] users[j]).id == sessions[digest]) && forall|j: int|
            0 <= j < books.len() ==> (#[trigger] books[j]).info.isbn != isbn)
            ==> spec_progress_target(sessions, users, books, digest, isbn) == Err::<
            (u32, u32),
            ProgressBookmarkRepositoryError,
        >(ProgressBookmarkRepositoryError::BookNotFoundError(isbn)),
{
    if sessions.contains_key(digest) {
        lemma_first_index(users, user_id_is(sessions[digest]));
    }
    lemma_first_index(books, isbn_is(isbn));
}

/// After progress is recorded, the bookmarks of that user hold one in that
/// book at the page reported.
pub proof fn law_progress_then_user_bookmarks(
    marks: Seq<Bookmark>,
    user_id: u32,
    book_id: u32,
    page: u16,
)
    requires
        upsert_fits(marks, user_id, book_id),
    ensures
        exists|m: Bookmark|
            #![trigger spec_upsert(marks, user_id, book_id, page).filter(bookmark_user_is(user_id)).contains(m)]
            spec_upsert(marks, user_id, book_id, page).filter(bookmark_user_is(user_id)).contains(m)
                && m.book_id == book_id && m.page_in_progress == page,
{
    let t = spec_upsert(marks, user_id, book_id, page);
    law_progress_then_find(marks, user_id, book_id, page);
    lemma_first_index(t, bookmark_of(user_id, book_id));
    let i = first_index(t, bookmark_of(user_id, book_id)).unwrap();
    t.lemma_filter_contains(bookmark_user_is(user_id), i);
    assert(t.filter(bookmark_user_is(user_id)).contains(t[i]));
}

/// Where no two bookmarks share an id, nor a user and a book, recording
/// progress keeps it so. Every bookmark stays, with its id, user and book,
/// and at most one is added.
pub proof fn law_upsert_keeps_bookmarks_distinct(
    marks: Seq<Bookmark>,
    user_id: u32,
    book_id: u32,
    page: u16,
)
    requires
        upsert_fits(marks, user_id, book_id),
        forall|i: int, j: int|
            0 <= i < marks.len() && 0 <= j < marks.len() && i != j ==> (#[trigger] marks[i]).id
                != (#[trigger] marks[j]).id && !(marks[i].user_id == marks[j].user_id
                && marks[i].book_id == marks[j].book_id),
    ensures
        ({
            let t = spec_upsert(marks, user_id, book_id, page);
            forall|i: int, j: int|
                0 <= i < t.len() && 0 <= j < t.len() && i != j ==> (#[trigger] t[i]).id != (
                #[trigger] t[j]).id && !(t[i].user_id == t[j].user_id && t[i].book_id
                    == t[j].book_id)
        }),
        marks.len() <= spec_upsert(marks, user_id, book_id, page).len() <= marks.len() + 1,
        forall|i: int|
            0 <= i < marks.len() ==> (#[trigger] spec_upsert(marks, user_id, book_id, page)[i]).id
                == marks[i].id && spec_upsert(marks, user_id, book_id, page)[i].user_id
                == marks[i].user_id && spec_upsert(marks, user_id, book_id, page)[i].book_id
                == marks[i].book_id,
{
    let t = spec_upsert(marks, user_id, book_id, page);
    let p = bookmark_of(user_id, book_id);
    lemma_first_index(marks, p);
    lemma_max_key(marks, bookmark_key());
    assert forall|i: int, j: int| 0 <= i < t.len() && 0 <= j < t.len() && i != j implies (
    #[trigger] t[i]).id != (#[trigger] t[j]).id && !(t[i].user_id == t[j].user_id
        && t[i].book_id == t[j].book_id) by {
        match first_index(marks, p) {
            Some(k) => {
                assert(t[i].id == marks[i].id && t[i].user_id == marks[i].user_id && t[i].book_id
                    == marks[i].book_id);
                assert(t[j].id == marks[j].id && t[j].user_id == marks[j].user_id && t[j].book_id
                    == marks[j].book_id);
            },
            None => {
                if i < marks.len() && j < marks.len() {
                    assert(t[i] == marks[i] && t[j] == marks[j]);
                } else if i < marks.len() {
                    assert(t[i] == marks[i]);
                    assert(!p(marks[i]));
                    assert(bookmark_key()(marks[i]) <= max_key(marks, bookmark_key()));
                } else {
                    assert(t[j] == marks[j]);
                    assert(!p(marks[j]));
                    assert(bookmark_key()(marks[j]) <= max_key(marks, bookmark_key()));
                }
            },
        }
    }
}

/// What `progress` leaves of the bookmarks: where no two share an id, nor a
/// user and a book, none do afterwards; every bookmark stays with its id, user
/// and book; at most one is added. On an error they are unchanged.
pub proof fn law_progress_keeps_bookmarks(
    marks: Seq<Bookmark>,
    sessions: Map<Seq<u8>, u32>,
    users: Seq<UserView>,
    books: Seq<BookView>,
    digest: Seq<u8>,
    isbn: Isbn,
    page: u16,
)
    requires
        match spec_progress_target(sessions, users, books, digest, isbn) {
            Ok((u, b)) => upsert_fits(marks, u, b),
            Err(_) => true,
        },
        forall|i: int, j: int|
            0 <= i < marks.len() && 0 <= j < marks.len() && i != j ==> (#[trigger] marks[i]).id
                != (#[trigger] marks[j]).id && !(marks[i].user_id == marks[j].user_id
                && marks[i].book_id == marks[j].book_id),
    ensures
        ({
            let t = match spec_progress_target(sessions, users, books, digest, isbn) {
                Ok((u, b)) => spec_upsert(marks, u, b, page),
                Err(_) => marks,
            };
            &&& forall|i: int, j: int|
                0 <= i < t.len() && 0 <= j < t.len() && i != j ==> (#[trigger] t[i]).id != (
                #[trigger] t[j]).id && !(t[i].user_id == t[j].user_id && t[i].book_id
                    == t[j].book_id)
            &&& marks.len() <= t.len() <= marks.len() + 1
            &&& forall|i: int|
                0 <= i < marks.len() ==> (#[trigger] t[i]).id == marks[i].id && t[i].user_id
                    == marks[i].user_id && t[i].book_id == marks[i].book_id
        }),
{
    match spec_progress_target(sessions, users, books, digest, isbn) {
        Ok((u, b)) => {
            law_upsert_keeps_bookmarks_distinct(marks, u, b, page);
        },
        Err(_) => {},
    }
}

} // verus!
