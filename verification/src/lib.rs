//! Bookshelf: in-memory repositories of books, users, reading sessions and
//! bookmarks, with the query and mutation logic of its GraphQL interface.

pub mod decimal;
pub mod seqs;
pub mod session;
pub mod bookshelf;
pub mod user;
pub mod bookmark;
pub mod schema;


