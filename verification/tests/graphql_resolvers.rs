use bookshelf::bookmark::{Bookmark as RepoBookmark, InMemoryBookmarksRepository};
use bookshelf::bookshelf::{Book as RepoBook, BookInfo, BooksRepository, InMemoryBooksRepository, Isbn};
use bookshelf::schema::{Bookmark, Context, FieldError, Isbn as GqlIsbn, Mutation, Query};
use bookshelf::session::{InMemorySessionsRepository, SessionsRepository};
use bookshelf::user::{InMemoryUsersRepository, UsersRepository};

fn context() -> Context {
    Context {
        books_repository: InMemoryBooksRepository::new(),
        users_repository: InMemoryUsersRepository::new(),
        bookmarks_repository: InMemoryBookmarksRepository::new(),
        sessions_repository: InMemorySessionsRepository::new(),
        session_digest: (None, false),
    }
}

fn texts(e: &FieldError) -> (&str, &str, &str) {
    (e.message.as_str(), e.key.as_str(), e.value.as_str())
}

#[test]
fn gql_isbn_shows_decimal_code() {
    assert_eq!(GqlIsbn::from(Isbn(9784297105594)).code, "9784297105594");
}

#[test]
fn gql_bookmark_from_book_and_bookmark() {
    let book = RepoBook {
        id: 2,
        info: BookInfo { title: "T".to_string(), page_count: 99, isbn: Isbn(9780000000002) },
    };
    let mark = RepoBookmark { id: 5, user_id: 1, book_id: 2, page_in_progress: 40 };
    let b = Bookmark::new(book.clone(), mark).unwrap();
    assert_eq!((b.id, b.title.as_str(), b.page_count, b.isbn.code.as_str(), b.page_in_progress), (5, "T", 99, "9780000000002", 40));
    let other = RepoBookmark { id: 5, user_id: 1, book_id: 3, page_in_progress: 40 };
    assert_eq!(Bookmark::new(book, other).unwrap_err(), "internal error book_id didn't match");
}

#[test]
fn book_from_isbn_parses_isbn() {
    assert_eq!(Query::book_from_isbn_request("9784297105594".to_string()).unwrap(), Isbn(9784297105594));
    let e = Query::book_from_isbn_request("abc".to_string()).unwrap_err();
    assert_eq!(texts(&e), ("isbn error", "isbn_error", "isbn error"));
    let e = Query::book_from_isbn_request("123".to_string()).unwrap_err();
    assert_eq!(texts(&e), ("isbn error", "isbn_error", "isbn error"));
}

#[test]
fn book_from_isbn_answers() {
    let ctx = context();
    let net = BookInfo { title: "Net".to_string(), page_count: 10, isbn: Isbn(9784297105594) };
    let b = Query::book_from_isbn(&ctx, Isbn(9784297105594), Ok(net)).unwrap();
    assert_eq!((b.name.as_str(), b.page, b.isbn.code.as_str(), b.data_source.as_str()), ("実践Rust入門", 576, "9784297105594", "inmemory"));
    let net = BookInfo { title: "Net".to_string(), page_count: 10, isbn: Isbn(9780000000001) };
    let b = Query::book_from_isbn(&ctx, Isbn(9780000000001), Ok(net)).unwrap();
    assert_eq!((b.name.as_str(), b.page, b.isbn.code.as_str(), b.data_source.as_str()), ("Net", 10, "9780000000001", "network"));
    let e = Query::book_from_isbn(&ctx, Isbn(9784297105594), Err("timed out".to_string())).unwrap_err();
    assert_eq!(texts(&e), ("timed out", "create_error", "create error"));
}

#[test]
fn logged_in_without_session() {
    let ctx = context();
    let e = Query::logged_in(&ctx).unwrap_err();
    assert_eq!(texts(&e), ("session error", "session_error", "cannot get session_digest1"));
}

#[test]
fn login_then_logged_in() {
    let mut ctx = context();
    assert_eq!(Mutation::login(&mut ctx, "foo@example.com".to_string(), "bad".to_string()).unwrap(), false);
    assert_eq!(ctx.session_digest, (None, false));
    assert_eq!(Mutation::login(&mut ctx, "foo@example.com".to_string(), "123abcdef".to_string()).unwrap(), true);
    let (d, set) = ctx.session_digest;
    assert!(set);
    let d = d.unwrap();
    assert_eq!(ctx.sessions_repository.find_session(d), Some(&1));
    assert_eq!(Query::logged_in(&ctx).unwrap(), true);
    ctx.session_digest = (Some([7; 20]), false);
    assert_eq!(Query::logged_in(&ctx).unwrap(), false);
}

#[test]
fn login_with_given_digest() {
    let mut ctx = context();
    assert_eq!(Mutation::login_with_digest(&mut ctx, "foo@example.com".to_string(), "123abcdef".to_string(), [3; 20]).unwrap(), true);
    assert_eq!(ctx.session_digest, (Some([3; 20]), true));
    assert_eq!(ctx.sessions_repository.find_session([3; 20]), Some(&1));
}

#[test]
fn two_logins_get_different_digests() {
    let mut ctx = context();
    Mutation::login(&mut ctx, "foo@example.com".to_string(), "123abcdef".to_string()).unwrap();
    let first = ctx.session_digest.0.unwrap();
    Mutation::login(&mut ctx, "foo@example.com".to_string(), "123abcdef".to_string()).unwrap();
    let second = ctx.session_digest.0.unwrap();
    assert_ne!(first, second);
    assert_eq!(ctx.sessions_repository.find_session(first), Some(&1));
    assert_eq!(ctx.sessions_repository.find_session(second), Some(&1));
}

#[test]
fn create_book_and_user() {
    let mut ctx = context();
    assert_eq!(Mutation::create_book(&mut ctx, "New".to_string(), 12, "9780000000003".to_string()).unwrap(), true);
    let b = ctx.books_repository.find_by_isbn(Isbn(9780000000003)).unwrap();
    assert_eq!((b.id, b.info.title.as_str(), b.info.page_count), (2, "New", 12));
    let e = Mutation::create_book(&mut ctx, "Bad".to_string(), 1, "97800".to_string()).unwrap_err();
    assert_eq!(texts(&e), ("isbn error", "isbn_error", "isbn error"));
    assert_eq!(ctx.books_repository.0.len(), 2);
    assert_eq!(Mutation::create_user(&mut ctx, "new@example.com".to_string(), "pw".to_string()).unwrap(), true);
    assert_eq!(Mutation::create_user(&mut ctx, "new@example.com".to_string(), "pw2".to_string()).unwrap(), true);
    assert_eq!(ctx.users_repository.find_by_user_info("new@example.com".to_string(), "pw".to_string()).unwrap().id, 2);
    assert!(ctx.users_repository.find_by_id(3).is_none());
    assert_eq!(Mutation::login(&mut ctx, "new@example.com".to_string(), "pw".to_string()).unwrap(), true);
    assert_eq!(ctx.sessions_repository.find_session(ctx.session_digest.0.unwrap()), Some(&2));
}

#[test]
fn progress_errors_in_order() {
    let mut ctx = context();
    let e = Mutation::progress(&mut ctx, "x".to_string(), 1).unwrap_err();
    assert_eq!(texts(&e), ("isbn error", "progress error", "isbn error"));
    let e = Mutation::progress(&mut ctx, "9784297105594".to_string(), -1).unwrap_err();
    assert_eq!(texts(&e), ("page range error", "progress", "progress_error"));
    let e = Mutation::progress(&mut ctx, "9784297105594".to_string(), 65536).unwrap_err();
    assert_eq!(texts(&e), ("page range error", "progress", "progress_error"));
    let e = Mutation::progress(&mut ctx, "9784297105594".to_string(), 5).unwrap_err();
    assert_eq!(texts(&e), ("session digest error", "progress", "session_digest_error"));
    ctx.session_digest = (Some([1; 20]), false);
    let e = Mutation::progress(&mut ctx, "9784297105594".to_string(), 5).unwrap_err();
    assert_eq!(texts(&e), ("progress error", "progress", "progress_error"));
    Mutation::login_with_digest(&mut ctx, "foo@example.com".to_string(), "123abcdef".to_string(), [1; 20]).unwrap();
    let e = Mutation::progress(&mut ctx, "9780000000000".to_string(), 5).unwrap_err();
    assert_eq!(texts(&e), ("progress error", "progress", "progress_error"));
}

#[test]
fn progress_then_bookmarks() {
    let mut ctx = context();
    let e = Query::bookmarks(&ctx).unwrap_err();
    assert_eq!(texts(&e), ("session error", "session_error", "cannot get session_digest1"));
    Mutation::login_with_digest(&mut ctx, "foo@example.com".to_string(), "123abcdef".to_string(), [9; 20]).unwrap();
    assert!(Query::bookmarks_ready(&ctx));
    assert!(Query::bookmarks(&ctx).unwrap().is_empty());
    assert_eq!(Mutation::progress(&mut ctx, "9784297105594".to_string(), 0).unwrap(), true);
    assert_eq!(Mutation::progress(&mut ctx, "9784297105594".to_string(), 65535).unwrap(), true);
    assert!(Query::bookmarks_ready(&ctx));
    let marks = Query::bookmarks(&ctx).unwrap();
    assert_eq!(marks.len(), 1);
    let m = &marks[0];
    assert_eq!((m.id, m.title.as_str(), m.page_count, m.isbn.code.as_str(), m.page_in_progress), (1, "実践Rust入門", 576, "9784297105594", 65535));
}

#[test]
fn bookmarks_not_ready() {
    let mut ctx = context();
    ctx.session_digest = (Some([4; 20]), false);
    assert!(!Query::bookmarks_ready(&ctx));
    // bookmarks made out of id order cannot be paired with their books
    Mutation::login_with_digest(&mut ctx, "foo@example.com".to_string(), "123abcdef".to_string(), [4; 20]).unwrap();
    Mutation::create_book(&mut ctx, "Two".to_string(), 2, "9780000000002".to_string()).unwrap();
    Mutation::progress(&mut ctx, "9780000000002".to_string(), 1).unwrap();
    assert!(Query::bookmarks_ready(&ctx));
    Mutation::progress(&mut ctx, "9784297105594".to_string(), 1).unwrap();
    assert!(!Query::bookmarks_ready(&ctx));
}

#[test]
fn progress_fits_on_ordinary_requests() {
    let mut ctx = context();
    assert!(Mutation::progress_fits(&ctx, "x".to_string(), 1));
    assert!(Mutation::progress_fits(&ctx, "9784297105594".to_string(), 1));
    Mutation::login_with_digest(&mut ctx, "foo@example.com".to_string(), "123abcdef".to_string(), [2; 20]).unwrap();
    assert!(Mutation::progress_fits(&ctx, "9784297105594".to_string(), 1));
    assert!(ctx.bookmarks_repository.can_record(1, 1));
}
