# bookshelf

A reading-progress service: a shelf of books (looked up by ISBN, or asked of
the Google Books API), registered readers, login sessions, and bookmarks that
record how far each reader has got in each book, served through GraphQL.

- `src/` is the library, verified with Verus:
  - `decimal` reads and writes decimal numbers as `u64::from_str` and
    `u64::to_string` do;
  - `seqs` holds the sequence notions the contracts use (first match,
    greatest key, pairing);
  - `bookshelf`, `user`, `session`, `bookmark` are the in-memory
    repositories and the messages they handle;
  - `schema` holds the resolvers of the GraphQL queries and mutations.
- `app/` is the server around it: actix-web, the cookie that carries the
  session digest, juniper's schema, and the HTTP requests to the book service.
- `tests/` exercises the library on concrete values.
