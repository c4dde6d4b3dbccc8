use bookshelf::bookmark::{
    BookmarksRepository, InMemoryBookmarksRepository, Progress, ProgressBookmarkRepositoryError,
};
use bookshelf::bookshelf::{
    books_api_url, sort_books_by_id, Add, Book, BookApiError, BookInfo, BookInfoError, BooksRepository,
    BookInfoLocation, InMemoryBooksRepository, IndustryIdentifier, Isbn, IsbnError,
    SearchFromIsbn, Volume, VolumeInfo, Volumes,
};
use bookshelf::session::{digest_eq, Add as AddSession, InMemorySessionsRepository, SessionsRepository};
use bookshelf::user::{AddUser, AddUserRepositoryError, FindBooks, InMemoryUsersRepository, UsersRepository};

fn info(title: &str, page_count: i32, isbn: u64) -> BookInfo {
    BookInfo { title: title.to_string(), page_count, isbn: Isbn(isbn) }
}

fn book(id: u32, title: &str, isbn: u64) -> Book {
    Book { id, info: info(title, 100, isbn) }
}

fn digest(b: u8) -> [u8; 20] {
    [b; 20]
}

// ---------------------------------------------------------------- sessions

#[test]
fn sessions_add_find_remove() {
    let mut s = InMemorySessionsRepository::new();
    assert_eq!(s.find_session(digest(1)), None);
    s.add_session(digest(1), 7);
    s.add_session(digest(2), 8);
    assert_eq!(s.find_session(digest(1)), Some(&7));
    assert_eq!(s.find_session(digest(2)), Some(&8));
    s.add_session(digest(1), 9);
    assert_eq!(s.find_session(digest(1)), Some(&9));
    assert!(s.remove_session(digest(1)));
    assert_eq!(s.find_session(digest(1)), None);
    assert!(!s.remove_session(digest(1)));
    assert_eq!(s.find_session(digest(2)), Some(&8));
}

#[test]
fn sessions_handle_add_message() {
    let mut s = InMemorySessionsRepository::new();
    s.handle_add(AddSession { session_digest: digest(3), user_id: 4 });
    assert_eq!(s.find_session(digest(3)), Some(&4));
}

#[test]
fn digests_compare_by_bytes() {
    let mut a = digest(5);
    assert!(digest_eq(&a, &digest(5)));
    a[19] = 6;
    assert!(!digest_eq(&a, &digest(5)));
}

// ---------------------------------------------------------------- users

#[test]
fn users_start_with_one_user() {
    let users = InMemoryUsersRepository::new();
    let u = users.find_by_id(1).unwrap();
    assert_eq!(u.email, "foo@example.com");
    assert_eq!(u.password, "123abcdef");
    assert_eq!(u.session_id, "");
    assert!(users.find_by_id(2).is_none());
    assert_eq!(users.next_id(), Some(2));
}

#[test]
fn users_add_and_find() {
    let mut users = InMemoryUsersRepository::new();
    assert!(users.add("bar@example.com".to_string(), "pw".to_string()).is_ok());
    let u = users.find_by_user_info("bar@example.com".to_string(), "pw".to_string()).unwrap();
    assert_eq!(u.id, 2);
    assert!(users.find_by_user_info("bar@example.com".to_string(), "wrong".to_string()).is_none());
    assert_eq!(users.find_by_id(2).unwrap().email, "bar@example.com");
    assert_eq!(users.find_by_session(String::new()).unwrap().id, 1);
    assert!(users.find_by_session("abc".to_string()).is_none());
}

#[test]
fn users_reject_taken_address() {
    let mut users = InMemoryUsersRepository::new();
    match users.add("foo@example.com".to_string(), "other".to_string()) {
        Err(AddUserRepositoryError::DuplicatedUserError(e)) => assert_eq!(e, "foo@example.com"),
        Ok(()) => panic!("taken address accepted"),
    }
    assert!(users.find_by_id(2).is_none());
    assert!(users.find_by_user_info("foo@example.com".to_string(), "other".to_string()).is_none());
}

#[test]
fn users_handle_add_answers_true() {
    let mut users = InMemoryUsersRepository::new();
    assert!(users.handle_add_user(AddUser { email: "a@b".to_string(), password: "p".to_string() }));
    assert!(users.handle_add_user(AddUser { email: "a@b".to_string(), password: "q".to_string() }));
    assert_eq!(users.find_by_id(2).unwrap().password, "p");
    assert!(users.find_by_id(3).is_none());
    assert_eq!(users.next_id(), Some(3));
}

// ---------------------------------------------------------------- books

#[test]
fn books_start_with_one_book() {
    let books = InMemoryBooksRepository::new();
    assert_eq!(books.0.len(), 1);
    let b = &books.0[0];
    assert_eq!(b.id, 1);
    assert_eq!(b.title(), "実践Rust入門");
    assert_eq!(b.page_count(), 576);
    assert_eq!(b.isbn(), Isbn(9784297105594));
}

#[test]
fn books_find_add_latest_delete() {
    let mut books = InMemoryBooksRepository(vec![book(3, "a", 9780000000001), book(5, "b", 9780000000002)]);
    assert_eq!(books.find_by_isbn(Isbn(9780000000002)).unwrap().id, 5);
    assert!(books.find_by_isbn(Isbn(9780000000009)).is_none());
    assert_eq!(books.find_by_id(3).unwrap().info.title, "a");
    assert!(books.find_by_id(4).is_none());
    assert!(books.add(book(4, "c", 9780000000001)));
    assert_eq!(books.latest().unwrap().id, 4);
    // the first book with the ISBN is found, then deleted
    assert_eq!(books.find_by_isbn(Isbn(9780000000001)).unwrap().id, 3);
    assert!(books.delete(Isbn(9780000000001)));
    assert_eq!(books.find_by_isbn(Isbn(9780000000001)).unwrap().id, 4);
    assert!(books.delete(Isbn(9780000000001)));
    assert!(books.find_by_isbn(Isbn(9780000000001)).is_none());
    assert!(!books.delete(Isbn(9780000000001)));
    assert_eq!(books.0.len(), 1);
    let empty = InMemoryBooksRepository(vec![]);
    assert!(empty.latest().is_none());
}

#[test]
fn books_search_keeps_shelf_order() {
    let books = InMemoryBooksRepository(vec![book(3, "a", 1), book(1, "b", 2), book(2, "c", 3)]);
    let found = books.search(vec![2, 3, 9]);
    let ids: Vec<u32> = found.iter().map(|b| b.id).collect();
    assert_eq!(ids, vec![3, 2]);
    assert!(books.search(vec![]).is_empty());
}

#[test]
fn books_handle_add_takes_next_id() {
    let mut books = InMemoryBooksRepository(vec![book(3, "a", 1), book(7, "b", 2), book(5, "c", 3)]);
    assert_eq!(books.next_id(), Some(8));
    assert!(books.handle_add(Add { title: "d".to_string(), page_count: 12, isbn: Isbn(9780000000004) }));
    let added = books.latest().unwrap();
    assert_eq!(added.id, 8);
    assert_eq!(added.info.title, "d");
    assert_eq!(added.info.page_count, 12);
    assert_eq!(books.find_by_id(8).unwrap().isbn(), Isbn(9780000000004));
    let mut empty = InMemoryBooksRepository(vec![]);
    assert_eq!(empty.next_id(), Some(1));
    assert!(empty.handle_add(Add { title: "e".to_string(), page_count: 1, isbn: Isbn(9780000000005) }));
    assert_eq!(empty.latest().unwrap().id, 1);
    let full = InMemoryBooksRepository(vec![book(u32::MAX, "z", 1)]);
    assert_eq!(full.next_id(), None);
}

#[test]
fn books_search_from_isbn_prefers_shelf() {
    let books = InMemoryBooksRepository::new();
    let (found, location) =
        books.handle_search_from_isbn(SearchFromIsbn(Isbn(9784297105594)), info("net", 1, 9784297105594));
    assert_eq!(found.title, "実践Rust入門");
    assert_eq!(location, BookInfoLocation::InMemory);
    assert_eq!(location.to_string(), "inmemory");
    let (found, location) =
        books.handle_search_from_isbn(SearchFromIsbn(Isbn(9780000000001)), info("net", 1, 9780000000001));
    assert_eq!(found.title, "net");
    assert_eq!(location, BookInfoLocation::Network);
    assert_eq!(location.to_string(), "network");
}

#[test]
fn books_sort_is_stable_by_id() {
    let books = vec![book(3, "a", 1), book(1, "b", 2), book(3, "c", 3), book(2, "d", 4), book(1, "e", 5)];
    let sorted = sort_books_by_id(&books);
    let order: Vec<(u32, String)> = sorted.iter().map(|b| (b.id, b.info.title.clone())).collect();
    assert_eq!(
        order,
        vec![
            (1, "b".to_string()),
            (1, "e".to_string()),
            (2, "d".to_string()),
            (3, "a".to_string()),
            (3, "c".to_string())
        ]
    );
    assert!(sort_books_by_id(&vec![]).is_empty());
}

fn volume(title: &str, idents: &[(&str, &str)]) -> Volume {
    Volume {
        id: "v".to_string(),
        volume_info: VolumeInfo {
            title: title.to_string(),
            page_count: 321,
            industry_identifiers: idents
                .iter()
                .map(|(t, i)| IndustryIdentifier { identifier_type: t.to_string(), identifier: i.to_string() })
                .collect(),
        },
    }
}

#[test]
fn volume_read_as_book() {
    let v = volume("T", &[("ISBN_10", "4297105594"), ("ISBN_13", "9784297105594"), ("ISBN_13", "9780000000000")]);
    let b = BookInfo::try_from(v).unwrap();
    assert_eq!(b.title, "T");
    assert_eq!(b.page_count, 321);
    assert_eq!(b.isbn, Isbn(9784297105594));
}

#[test]
fn volume_without_isbn13() {
    let v = volume("T", &[("ISBN_10", "4297105594")]);
    assert!(matches!(BookInfo::try_from(v), Err(BookInfoError::Api(BookApiError::NotFound))));
    let v = volume("T", &[("ISBN_13", "12")]);
    assert!(matches!(BookInfo::try_from(v), Err(BookInfoError::Isbn(IsbnError::RangeError(12)))));
    let v = volume("T", &[("ISBN_13", "97842971055945x")]);
    assert!(matches!(BookInfo::try_from(v), Err(BookInfoError::Isbn(IsbnError::ParseError(_)))));
}

#[test]
fn volumes_first_book() {
    assert!(Volumes { items: vec![] }.first_book_info().is_none());
    let vs = Volumes {
        items: vec![volume("A", &[("ISBN_13", "9780000000001")]), volume("B", &[("ISBN_13", "9780000000002")])],
    };
    let first = vs.first_book_info().unwrap().unwrap();
    assert_eq!(first.title, "A");
    assert_eq!(first.isbn, Isbn(9780000000001));
    let vs = Volumes { items: vec![volume("A", &[]), volume("B", &[("ISBN_13", "9780000000002")])] };
    assert!(vs.first_book_info().unwrap().is_err());
}

#[test]
fn books_api_address() {
    assert_eq!(
        books_api_url(Isbn(9784297105594)),
        "https://www.googleapis.com/books/v1/volumes?q=isbn:9784297105594"
    );
}

// ---------------------------------------------------------------- bookmarks

fn world() -> (InMemorySessionsRepository, InMemoryUsersRepository, InMemoryBooksRepository) {
    let mut sessions = InMemorySessionsRepository::new();
    sessions.add_session(digest(1), 1);
    sessions.add_session(digest(2), 42);
    (sessions, InMemoryUsersRepository::new(), InMemoryBooksRepository::new())
}

#[test]
fn progress_creates_then_updates_bookmark() {
    let (sessions, users, books) = world();
    let mut marks = InMemoryBookmarksRepository::new();
    assert_eq!(marks.next_id(), Some(1));
    assert_eq!(marks.progress(Isbn(9784297105594), 10, digest(1), &sessions, &users, &books), Ok(()));
    let mine = marks.find_by_user_id(1);
    assert_eq!(mine.len(), 1);
    assert_eq!((mine[0].id, mine[0].user_id, mine[0].book_id, mine[0].page_in_progress), (1, 1, 1, 10));
    assert_eq!(marks.progress(Isbn(9784297105594), 55, digest(1), &sessions, &users, &books), Ok(()));
    let mine = marks.find_by_user_id(1);
    assert_eq!(mine.len(), 1);
    assert_eq!(mine[0].page_in_progress, 55);
    assert_eq!(marks.next_id(), Some(2));
}

#[test]
fn progress_errors() {
    let (sessions, users, books) = world();
    let mut marks = InMemoryBookmarksRepository::new();
    // no session for the digest
    assert_eq!(
        marks.progress(Isbn(9784297105594), 1, digest(9), &sessions, &users, &books),
        Err(ProgressBookmarkRepositoryError::UserNotFoundError)
    );
    // a session whose user does not exist
    assert_eq!(
        marks.progress(Isbn(9784297105594), 1, digest(2), &sessions, &users, &books),
        Err(ProgressBookmarkRepositoryError::UserNotFoundError)
    );
    // an unknown book
    assert_eq!(
        marks.progress(Isbn(9780000000000), 1, digest(1), &sessions, &users, &books),
        Err(ProgressBookmarkRepositoryError::BookNotFoundError(Isbn(9780000000000)))
    );
    assert!(marks.find_by_user_id(1).is_empty());
}

#[test]
fn progress_message_and_upsert() {
    let (sessions, users, books) = world();
    let mut marks = InMemoryBookmarksRepository::new();
    let msg = Progress { isbn: Isbn(9784297105594), page_in_progress: 3, session_digest: digest(1) };
    assert_eq!(marks.handle_progress(msg, &sessions, &users, &books), Ok(()));
    marks.upsert(2, 1, 9);
    marks.upsert(1, 7, 4);
    let mine = marks.find_by_user_id(1);
    let ids: Vec<(u64, u32, u16)> = mine.iter().map(|m| (m.id, m.book_id, m.page_in_progress)).collect();
    assert_eq!(ids, vec![(1, 1, 3), (3, 7, 4)]);
    assert_eq!(marks.find_by_user_id(2).len(), 1);
    assert_eq!(marks.find_by_user_id(2)[0].id, 2);
}

#[test]
fn books_of_a_user_pair_with_bookmarks() {
    let books = InMemoryBooksRepository(vec![book(2, "two", 2), book(1, "one", 1), book(3, "three", 3)]);
    let users = InMemoryUsersRepository::new();
    let mut marks = InMemoryBookmarksRepository::new();
    marks.upsert(1, 1, 11);
    marks.upsert(2, 3, 5);
    marks.upsert(1, 2, 22);
    let pairs = users.handle_find_books(FindBooks { user_id: 1 }, &marks, &books);
    let got: Vec<(u32, u32, u16)> = pairs.iter().map(|(b, m)| (b.id, m.book_id, m.page_in_progress)).collect();
    assert_eq!(got, vec![(1, 1, 11), (2, 2, 22)]);
    // bookmarks made out of id order are paired with books in id order
    let mut marks = InMemoryBookmarksRepository::new();
    marks.upsert(1, 3, 1);
    marks.upsert(1, 1, 2);
    let pairs = users.handle_find_books(FindBooks { user_id: 1 }, &marks, &books);
    let got: Vec<(u32, u32)> = pairs.iter().map(|(b, m)| (b.id, m.book_id)).collect();
    assert_eq!(got, vec![(1, 3), (3, 1)]);
    assert!(users.handle_find_books(FindBooks { user_id: 9 }, &marks, &books).is_empty());
}

#[test]
fn error_texts() {
    assert_eq!(BookApiError::NotFound.to_string(), "ISBN13 not found");
    assert_eq!(BookInfoError::Api(BookApiError::NotFound).to_string(), "ISBN13 not found");
    assert_eq!(
        BookInfoError::Isbn(IsbnError::RangeError(5)).to_string(),
        "ISBN must be between 9780000000000 - 9799999999999: 5"
    );
    assert_eq!(
        AddUserRepositoryError::DuplicatedUserError("a@b".to_string()).to_string(),
        "the email address have been already taken: a@b"
    );
    assert_eq!(ProgressBookmarkRepositoryError::SessionNotFoundError.to_string(), "Session Not Found");
    assert_eq!(ProgressBookmarkRepositoryError::UserNotFoundError.to_string(), "User Not Found");
    assert_eq!(ProgressBookmarkRepositoryError::BookNotFoundError(Isbn(1)).to_string(), "Book Not Found");
    assert_eq!(
        ProgressBookmarkRepositoryError::PageCountOverFlowError(700, 576).to_string(),
        "page_cuont max is 576, but entered 700"
    );
}

#[test]
fn users_has_email() {
    let users = InMemoryUsersRepository::new();
    assert!(users.has_email(&"foo@example.com".to_string()));
    assert!(!users.has_email(&"bar@example.com".to_string()));
}

#[test]
fn can_record_existing_and_new_bookmarks() {
    let mut marks = InMemoryBookmarksRepository::new();
    assert!(marks.can_record(1, 1));
    marks.upsert(1, 1, 3);
    assert!(marks.can_record(1, 1));
    assert!(marks.can_record(2, 1));
}
