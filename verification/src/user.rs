use vstd::prelude::*;

use crate::bookmark::{bookmark_user_is, Bookmark, InMemoryBookmarksRepository};
use crate::bookshelf::{
    book_id_in, books_view, law_sort_by_id, sort_books_by_id, sort_by_id, Book, BookView,
    InMemoryBooksRepository,
};
use crate::seqs::{
    find_first, first_index, lemma_first_index, lemma_first_index_at, lemma_first_index_none,
    lemma_max_key, max_key, zip,
};

verus! {

/// A registered reader.
#[derive(Debug)]
pub struct User {
    pub id: u32,
    pub email: String,
    pub password: String,
    pub session_id: String,
}

/// `User` with its texts taken as characters.
pub struct UserView {
    pub id: u32,
    pub email: Seq<char>,
    pub password: Seq<char>,
    pub session_id: Seq<char>,
}

impl View for User {
    type V = UserView;

    open spec fn view(&self) -> UserView {
        UserView {
            id: self.id,
            email: self.email@,
            password: self.password@,
            session_id: self.session_id@,
        }
    }
}

impl Clone for User {
    fn clone(&self) -> (r: Self)
        ensures
            r == *self,
    {
        User {
            id: self.id,
            email: self.email.clone(),
            password: self.password.clone(),
            session_id: self.session_id.clone(),
        }
    }
}

/// Why a user could not be registered.
#[derive(Debug)]
pub enum AddUserRepositoryError {
    /// The e-mail address is taken already; the address.
    DuplicatedUserError(String),
}

impl AddUserRepositoryError {
    /// The text that describes the error.
    pub fn to_string(&self) -> (r: String)
        ensures
            match self {
                AddUserRepositoryError::DuplicatedUserError(e) => r@
                    == "the email address have been already taken: "@ + e@,
            },
    {
        match self {
            AddUserRepositoryError::DuplicatedUserError(e) => {
                let mut text = String::from_str("the email address have been already taken: ");
                text.append(e.as_str());
                text
            },
        }
    }
}

/// Users with the e-mail address `email`.
pub open spec fn email_is(email: Seq<char>) -> spec_fn(UserView) -> bool {
    |u: UserView| u.email == email
}

/// Users with the e-mail address `email` and the password `password`.
pub open spec fn credentials_are(email: Seq<char>, password: Seq<char>) -> spec_fn(UserView) -> bool {
    |u: UserView| u.email == email && u.password == password
}

/// Users with the session id `session_id`.
pub open spec fn session_id_is(session_id: Seq<char>) -> spec_fn(UserView) -> bool {
    |u: UserView| u.session_id == session_id
}

/// Users with the id `id`.
pub open spec fn user_id_is(id: u32) -> spec_fn(UserView) -> bool {
    |u: UserView| u.id == id
}

/// The id of a user, as the key by which new ids are chosen.
pub open spec fn user_key() -> spec_fn(UserView) -> int {
    |u: UserView| u.id as int
}

/// The id that the next user registered gets: one more than the greatest id
/// so far, or 1 where there is no user.
pub open spec fn next_user_id(users: Seq<UserView>) -> int {
    max_key(users, user_key()) + 1
}

/// Whether some user has the e-mail address `email`.
pub open spec fn email_taken(users: Seq<UserView>, email: Seq<char>) -> bool {
    first_index(users, email_is(email)) is Some
}

/// The users after `email` and `password` are registered: unchanged where
/// the address is taken, else with a new user under the next id and with no
/// session id.
pub open spec fn spec_add_user(users: Seq<UserView>, email: Seq<char>, password: Seq<char>) -> Seq<
    UserView,
> {
    if email_taken(users, email) {
        users
    } else {
        users.push(
            UserView {
                id: next_user_id(users) as u32,
                email,
                password,
                session_id: Seq::<char>::empty(),
            },
        )
    }
}

/// An optional user taken by its view.
pub open spec fn opt_user_view(o: Option<&User>) -> Option<UserView> {
    match o {
        Some(u) => Some(u@),
        None => None,
    }
}

/// The users that have registered, in the order they did.
pub struct InMemoryUsersRepository(Vec<User>);

impl View for InMemoryUsersRepository {
    type V = Seq<UserView>;

    closed spec fn view(&self) -> Seq<UserView> {
        self.0@.map_values(|u: User| u@)
    }
}

impl InMemoryUsersRepository {
    /// The users as they start: one user, foo@example.com.
    pub fn new() -> (r: Self)
        ensures
            r@ == seq![
                UserView {
                    id: 1,
                    email: "foo@example.com"@,
                    password: "123abcdef"@,
                    session_id: ""@,
                },
            ],
    {
        let r = InMemoryUsersRepository(
            vec![
                User {
                    id: 1,
                    email: String::from_str("foo@example.com"),
                    password: String::from_str("123abcdef"),
                    session_id: String::from_str(""),
                },
            ],
        );
        assert(r@ =~= seq![
            UserView {
                id: 1,
                email: "foo@example.com"@,
                password: "123abcdef"@,
                session_id: ""@,
            },
        ]);
        r
    }

    /// Whether some user has the e-mail address `email`.
    pub fn has_email(&self, email: &String) -> (r: bool)
        ensures
            r == email_taken(self@, email@),
    {
        let mut i: usize = 0;
        while i < self.0.len()
            invariant
                i <= self@.len(),
                self@.len() == self.0@.len(),
                forall|j: int| 0 <= j < i ==> !email_is(email@)(#[trigger] self@[j]),
            decreases self@.len() - i,
        {
            if self.0[i].email == *email {
                assert(self@[i as int] == self.0@[i as int]@);
                proof {
                    lemma_first_index_at(self@, email_is(email@), i as int);
                }
                return true;
            }
            i = i + 1;
        }
        proof {
            lemma_first_index_none(self@, email_is(email@));
        }
        false
    }

    /// The id that the next user registered gets, if it fits in 32 bits.
    pub fn next_id(&self) -> (r: Option<u32>)
        ensures
            r == if next_user_id(self@) <= u32::MAX {
                Some(next_user_id(self@) as u32)
            } else {
                None::<u32>
            },
    {
        let mut max: u32 = 0;
        let n = self.0.len();
        let mut i: usize = 0;
        while i < n
            invariant
                n == self@.len(),
                self@.len() == self.0@.len(),
                i <= n,
                max as int == max_key(self@.take(i as int), user_key()),
            decreases n - i,
        {
            proof {
                assert(self@.take(i as int + 1).drop_last() =~= self@.take(i as int));
                assert(self@.take(i as int + 1).last() == self@[i as int]);
            }
            if self.0[i].id > max {
                max = self.0[i].id;
            }
            i = i + 1;
        }
        assert(self@.take(n as int) =~= self@);
        if max == u32::MAX {
            None
        } else {
            Some(max + 1)
        }
    }

    /// Handles the message that registers a user. The answer is `true`
    /// whether or not the address was taken.
    pub fn handle_add_user(&mut self, msg: AddUser) -> (r: bool)
        requires
            !email_taken(old(self)@, msg.email@) ==> next_user_id(old(self)@) <= u32::MAX,
        ensures
            r,
            final(self)@ == spec_add_user(old(self)@, msg.email@, msg.password@),
    {
        let _ = self.add(msg.email, msg.password);
        true
    }
}

/// The ids of the books that `marks` are in.
pub open spec fn marked_book_ids(marks: Seq<Bookmark>) -> Seq<u32> {
    marks.map_values(|m: Bookmark| m.book_id)
}

/// What the books of a user come to: the user's bookmarks in the order they
/// were made, and the books that they are in, ordered by id, paired off
/// position by position as far as both go.
pub open spec fn spec_find_books(marks: Seq<Bookmark>, books: Seq<BookView>, user_id: u32) -> Seq<
    (BookView, Bookmark),
> {
    let mine = marks.filter(bookmark_user_is(user_id));
    let found = books.filter(book_id_in(marked_book_ids(mine)));
    zip(sort_by_id(found), mine)
}

/// Pairs of a book and a bookmark, with the book taken by its view.
pub open spec fn pairs_view(s: Seq<(Book, Bookmark)>) -> Seq<(BookView, Bookmark)> {
    s.map_values(|p: (Book, Bookmark)| (p.0@, p.1))
}

impl InMemoryUsersRepository {
    /// Handles the message that asks for the books of a user with the
    /// user's bookmarks.
    pub fn handle_find_books(
        &self,
        msg: FindBooks,
        bookmarks_repository: &InMemoryBookmarksRepository,
        books_repository: &InMemoryBooksRepository,
    ) -> (r: Vec<(Book, Bookmark)>)
        ensures
            pairs_view(r@) == spec_find_books(
                bookmarks_repository@,
                books_repository@,
                msg.user_id,
            ),
    {
        let mine = bookmarks_repository.find_by_user_id(msg.user_id);
        let mut ids: Vec<u32> = Vec::new();
        let mut i: usize = 0;
        while i < mine.len()
            invariant
                i <= mine@.len(),
                ids@ == marked_book_ids(mine@).take(i as int),
            decreases mine@.len() - i,
        {
            ids.push(mine[i].book_id);
            i = i + 1;
            assert(ids@ =~= marked_book_ids(mine@).take(i as int));
        }
        assert(ids@ =~= marked_book_ids(mine@));
        let found = books_repository.search(ids);
        let sorted = sort_books_by_id(&found);
        let n = if sorted.len() <= mine.len() {
            sorted.len()
        } else {
            mine.len()
        };
        let ghost want = zip(books_view(sorted@), mine@);
        let mut r: Vec<(Book, Bookmark)> = Vec::new();
        let mut k: usize = 0;
        while k < n
            invariant
                want == zip(books_view(sorted@), mine@),
                n == want.len(),
                n <= sorted@.len(),
                n <= mine@.len(),
                k <= n,
                pairs_view(r@) == want.take(k as int),
            decreases n - k,
        {
            let ghost before = r@;
            let b = sorted[k].clone();
            assert(want[k as int] == (b@, mine@[k as int]));
            r.push((b, mine[k]));
            assert(r@ == before.push((b, mine@[k as int])));
            assert(pairs_view(r@) =~= pairs_view(before).push(want[k as int]));
            assert(want.take(k as int + 1) =~= want.take(k as int).push(want[k as int]));
            k = k + 1;
            assert(pairs_view(r@) =~= want.take(k as int));
        }
        assert(want.take(n as int) =~= want);
        r
    }
}

/// The message that asks for the books of a user with the user's bookmarks.
pub struct FindBooks {
    pub user_id: u32,
}

/// A store of users.
pub trait UsersRepository: View<V = Seq<UserView>> + Sized {
    /// Registers `email` with `password`, unless the address is taken.
    fn add(&mut self, email: String, password: String) -> (r: Result<
        (),
        AddUserRepositoryError,
    >)
        requires
            !email_taken(old(self)@, email@) ==> next_user_id(old(self)@) <= u32::MAX,
        ensures
            final(self)@ == spec_add_user(old(self)@, email@, password@),
            r == if email_taken(old(self)@, email@) {
                Err(AddUserRepositoryError::DuplicatedUserError(email))
            } else {
                Ok::<(), AddUserRepositoryError>(())
            },
    ;

    /// The first user with the e-mail address `email` and the password
    /// `password`.
    fn find_by_user_info(&self, email: String, password: String) -> (r: Option<&User>)
        ensures
            opt_user_view(r) == find_first(self@, credentials_are(email@, password@)),
    ;

    /// The first user with the session id `session_id`.
    fn find_by_session(&self, session_id: String) -> (r: Option<&User>)
        ensures
            opt_user_view(r) == find_first(self@, session_id_is(session_id@)),
    ;

    /// The first user with the id `user_id`.
    fn find_by_id(&self, user_id: u32) -> (r: Option<&User>)
        ensures
            opt_user_view(r) == find_first(self@, user_id_is(user_id)),
    ;
}

impl UsersRepository for InMemoryUsersRepository {
    fn add(&mut self, email: String, password: String) -> (r: Result<
        (),
        AddUserRepositoryError,
    >) {
        if self.has_email(&email) {
            Err(AddUserRepositoryError::DuplicatedUserError(email))
        } else {
            let id = match self.next_id() {
                Some(id) => id,
                None => 1,
            };
            let user = User { id, email, password, session_id: String::new() };
            self.0.push(user);
            assert(self@ =~= old(self)@.push(user@));
            Ok(())
        }
    }

    fn find_by_user_info(&self, email: String, password: String) -> (r: Option<&User>) {
        let mut i: usize = 0;
        while i < self.0.len()
            invariant
                i <= self@.len(),
                self@.len() == self.0@.len(),
                forall|j: int|
                    0 <= j < i ==> !credentials_are(email@, password@)(#[trigger] self@[j]),
            decreases self@.len() - i,
        {
            if self.0[i].email == email && self.0[i].password == password {
                assert(self@[i as int] == self.0@[i as int]@);
                proof {
                    lemma_first_index_at(self@, credentials_are(email@, password@), i as int);
                }
                return Some(&self.0[i]);
            }
            i = i + 1;
        }
        proof {
            lemma_first_index_none(self@, credentials_are(email@, password@));
        }
        None
    }

    fn find_by_session(&self, session_id: String) -> (r: Option<&User>) {
        let mut i: usize = 0;
        while i < self.0.len()
            invariant
                i <= self@.len(),
                self@.len() == self.0@.len(),
                forall|j: int| 0 <= j < i ==> !session_id_is(session_id@)(#[trigger] self@[j]),
            decreases self@.len() - i,
        {
            if self.0[i].session_id == session_id {
                assert(self@[i as int] == self.0@[i as int]@);
                proof {
                    lemma_first_index_at(self@, session_id_is(session_id@), i as int);
                }
                return Some(&self.0[i]);
            }
            i = i + 1;
        }
        proof {
            lemma_first_index_none(self@, session_id_is(session_id@));
        }
        None
    }

    fn find_by_id(&self, user_id: u32) -> (r: Option<&User>) {
        let mut i: usize = 0;
        while i < self.0.len()
            invariant
                i <= self@.len(),
                self@.len() == self.0@.len(),
                forall|j: int| 0 <= j < i ==> !user_id_is(user_id)(#[trigger] self@[j]),
            decreases self@.len() - i,
        {
            if self.0[i].id == user_id {
                assert(self@[i as int] == self.0@[i as int]@);
                proof {
                    lemma_first_index_at(self@, user_id_is(user_id), i as int);
                }
                return Some(&self.0[i]);
            }
            i = i + 1;
        }
        proof {
            lemma_first_index_none(self@, user_id_is(user_id));
        }
        None
    }
}

/// The message that registers a user.
pub struct AddUser {
    pub email: String,
    pub password: String,
}

/// A user registered with a free address is the user that its e-mail
/// address and password find, and the user that its new id finds.
pub proof fn law_added_user_found(users: Seq<UserView>, email: Seq<char>, password: Seq<char>)
    requires
        !email_taken(users, email),
        next_user_id(users) <= u32::MAX,
    ensures
        find_first(spec_add_user(users, email, password), credentials_are(email, password))
            == Some(spec_add_user(users, email, password).last()),
        find_first(spec_add_user(users, email, password), user_id_is(next_user_id(users) as u32))
            == Some(spec_add_user(users, email, password).last()),
        spec_add_user(users, email, password).last().email == email,
        spec_add_user(users, email, password).last().password == password,
{
    let t = spec_add_user(users, email, password);
    let id = next_user_id(users) as u32;
    lemma_first_index(users, email_is(email));
    lemma_max_key(users, user_key());
    assert forall|j: int| 0 <= j < users.len() implies !credentials_are(email, password)(
        #[trigger] t[j],
    ) by {
        assert(t[j] == users[j]);
        assert(!email_is(email)(users[j]));
    }
    assert forall|j: int| 0 <= j < users.len() implies !user_id_is(id)(#[trigger] t[j]) by {
        assert(t[j] == users[j]);
        assert(user_key()(users[j]) <= max_key(users, user_key()));
    }
    lemma_first_index_at(t, credentials_are(email, password), users.len() as int);
    lemma_first_index_at(t, user_id_is(id), users.len() as int);
}

/// An address is taken exactly when some user has that very address.
pub proof fn law_email_taken_means_same_address(users: Seq<UserView>, email: Seq<char>)
    ensures
        email_taken(users, email) <==> exists|j: int|
            0 <= j < users.len() && (#[trigger] users[j]).email == email,
{
    lemma_first_index(users, email_is(email));
    if exists|j: int| 0 <= j < users.len() && (#[trigger] users[j]).email == email {
        let j = choose|j: int| 0 <= j < users.len() && (#[trigger] users[j]).email == email;
        assert(email_is(email)(users[j]));
    }
}

/// Registering an address that no user has adds one user, after all the
/// others, with that address and password, no session id, and an id greater
/// than every id so far.
pub proof fn law_free_address_is_registered(
    users: Seq<UserView>,
    email: Seq<char>,
    password: Seq<char>,
)
    requires
        forall|j: int| 0 <= j < users.len() ==> (#[trigger] users[j]).email != email,
        next_user_id(users) <= u32::MAX,
    ensures
        spec_add_user(users, email, password).len() == users.len() + 1,
        forall|j: int|
            0 <= j < users.len() ==> #[trigger] spec_add_user(users, email, password)[j]
                == users[j],
        spec_add_user(users, email, password).last().email == email,
        spec_add_user(users, email, password).last().password == password,
        spec_add_user(users, email, password).last().session_id == Seq::<char>::empty(),
        forall|j: int|
            0 <= j < users.len() ==> (#[trigger] users[j]).id < spec_add_user(
                users,
                email,
                password,
            ).last().id,
{
    law_email_taken_means_same_address(users, email);
    lemma_max_key(users, user_key());
    assert forall|j: int| 0 <= j < users.len() implies (#[trigger] users[j]).id < spec_add_user(
        users,
        email,
        password,
    ).last().id by {
        assert(user_key()(users[j]) <= max_key(users, user_key()));
    }
}

/// The books of a user pair off every bookmark of the user, in the order the
/// bookmarks were made and left out by nothing else, with the books on the
/// shelf that those bookmarks are in, in ascending order of id, as far as
/// there are such books.
pub proof fn law_find_books_pairs_every_bookmark(
    marks: Seq<Bookmark>,
    books: Seq<BookView>,
    user_id: u32,
)
    ensures
        ({
            let mine = marks.filter(|m: Bookmark| m.user_id == user_id);
            let found = books.filter(
                |b: BookView| exists|k: int| 0 <= k < mine.len() && mine[k].book_id == b.id,
            );
            let r = spec_find_books(marks, books, user_id);
            &&& r.len() == if mine.len() <= found.len() {
                mine.len()
            } else {
                found.len()
            }
            &&& forall|i: int| 0 <= i < r.len() ==> (#[trigger] r[i]).1 == mine[i]
            &&& forall|i: int, j: int|
                0 <= i <= j < r.len() ==> (#[trigger] r[i]).0.id <= (#[trigger] r[j]).0.id
        }),
{
    let p = |m: Bookmark| m.user_id == user_id;
    assert(bookmark_user_is(user_id) =~= p);
    let mine = marks.filter(p);
    let q = |b: BookView| exists|k: int| 0 <= k < mine.len() && mine[k].book_id == b.id;
    let ids = marked_book_ids(mine);
    assert forall|b: BookView| #[trigger] book_id_in(ids)(b) == q(b) by {
        if ids.contains(b.id) {
            let k = choose|k: int| 0 <= k < ids.len() && ids[k] == b.id;
            assert(mine[k].book_id == b.id);
        }
        if q(b) {
            let k = choose|k: int| 0 <= k < mine.len() && mine[k].book_id == b.id;
            assert(ids[k] == b.id);
        }
    }
    assert(book_id_in(ids) =~= q);
    let found = books.filter(q);
    law_sort_by_id(found);
    vstd::seq_lib::to_multiset_len(found);
    vstd::seq_lib::to_multiset_len(sort_by_id(found));
    let r = spec_find_books(marks, books, user_id);
    assert(r == zip(sort_by_id(found), mine));
    assert forall|i: int, j: int| 0 <= i <= j < r.len() implies (#[trigger] r[i]).0.id <= (
    #[trigger] r[j]).0.id by {
        assert(r[i].0 == sort_by_id(found)[i] && r[j].0 == sort_by_id(found)[j]);
    }
}

/// No two users share an e-mail address, nor an id; registering keeps it
/// so. Registering changes and removes no user, and adds at most one.
pub proof fn law_add_keeps_users_distinct(
    users: Seq<UserView>,
    email: Seq<char>,
    password: Seq<char>,
)
    requires
        forall|i: int, j: int|
            0 <= i < users.len() && 0 <= j < users.len() && i != j ==> (#[trigger] users[i]).email
                != (#[trigger] users[j]).email && users[i].id != users[j].id,
        !email_taken(users, email) ==> next_user_id(users) <= u32::MAX,
    ensures
        ({
            let t = spec_add_user(users, email, password);
            forall|i: int, j: int|
                0 <= i < t.len() && 0 <= j < t.len() && i != j ==> (#[trigger] t[i]).email != (
                #[trigger] t[j]).email && t[i].id != t[j].id
        }),
        users.len() <= spec_add_user(users, email, password).len() <= users.len() + 1,
        forall|i: int|
            0 <= i < users.len() ==> #[trigger] spec_add_user(users, email, password)[i]
                == users[i],
{
    let t = spec_add_user(users, email, password);
    if !email_taken(users, email) {
        lemma_first_index(users, email_is(email));
        lemma_max_key(users, user_key());
        assert forall|i: int, j: int|
            0 <= i < t.len() && 0 <= j < t.len() && i != j implies (#[trigger] t[i]).email != (
            #[trigger] t[j]).email && t[i].id != t[j].id by {
            if i < users.len() && j < users.len() {
                assert(t[i] == users[i] && t[j] == users[j]);
            } else if i < users.len() {
                assert(t[i] == users[i]);
                assert(!email_is(email)(users[i]));
                assert(user_key()(users[i]) <= max_key(users, user_key()));
            } else {
                assert(t[j] == users[j]);
                assert(!email_is(email)(users[j]));
                assert(user_key()(users[j]) <= max_key(users, user_key()));
            }
        }
    }
}

} // verus!
