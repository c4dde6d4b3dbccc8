use vstd::prelude::*;

verus! {

/// The random token that identifies a logged-in browser session.
pub type SessionDigest = [u8; 20];

/// The sessions that are open: each digest belongs to one user.
pub struct InMemorySessionsRepository(Vec<(SessionDigest, u32)>);

/// The map from digests (by their bytes) to users that the entries stand for.
pub open spec fn entries_map(s: Seq<(SessionDigest, u32)>) -> Map<Seq<u8>, u32> {
    Map::new(
        |k: Seq<u8>| exists|i: int| 0 <= i < s.len() && (#[trigger] s[i]).0@ == k,
        |k: Seq<u8>| s[choose|i: int| 0 <= i < s.len() && (#[trigger] s[i]).0@ == k].1,
    )
}

/// No digest occurs twice among the entries.
pub open spec fn digests_distinct(s: Seq<(SessionDigest, u32)>) -> bool {
    forall|i: int, j: int| 0 <= i < s.len() && 0 <= j < s.len() && i != j ==> (#[trigger] s[i]).0@ != (#[trigger] s[j]).0@
}

proof fn lemma_entry_in_map(s: Seq<(SessionDigest, u32)>, i: int)
    requires
        digests_distinct(s),
        0 <= i < s.len(),
    ensures
        entries_map(s).contains_key(s[i].0@),
        entries_map(s)[s[i].0@] == s[i].1,
{
    let k = s[i].0@;
    assert(0 <= i < s.len() && s[i].0@ == k);
    let c = choose|c: int| 0 <= c < s.len() && (#[trigger] s[c]).0@ == k;
    assert(c == i);
}

proof fn lemma_map_push(s: Seq<(SessionDigest, u32)>, d: SessionDigest, u: u32)
    requires
        digests_distinct(s),
        !entries_map(s).contains_key(d@),
    ensures
        digests_distinct(s.push((d, u))),
        entries_map(s.push((d, u))) =~= entries_map(s).insert(d@, u),
{
    let t = s.push((d, u));
    assert forall|i: int| 0 <= i < s.len() implies (#[trigger] s[i]).0@ != d@ by {
        if s[i].0@ == d@ {
            assert(entries_map(s).contains_key(d@));
        }
    }
    assert(digests_distinct(t)) by {
        assert forall|i: int, j: int|
            0 <= i < t.len() && 0 <= j < t.len() && i != j implies (#[trigger] t[i]).0@ != (
            #[trigger] t[j]).0@ by {
            if i < s.len() && j < s.len() {
                assert(t[i] == s[i] && t[j] == s[j]);
            } else if i < s.len() {
                assert(t[i] == s[i]);
            } else {
                assert(t[j] == s[j]);
            }
        }
    }
    assert forall|k: Seq<u8>| #[trigger] entries_map(t).contains_key(k) <==> entries_map(s).insert(
        d@,
        u,
    ).contains_key(k) by {
        if entries_map(t).contains_key(k) {
            let i = choose|i: int| 0 <= i < t.len() && (#[trigger] t[i]).0@ == k;
            if i < s.len() {
                assert(s[i] == t[i]);
            }
        }
        if entries_map(s).contains_key(k) {
            let i = choose|i: int| 0 <= i < s.len() && (#[trigger] s[i]).0@ == k;
            assert(t[i] == s[i]);
        }
        if k == d@ {
            assert(t[s.len() as int].0@ == k);
        }
    }
    assert forall|k: Seq<u8>| #[trigger] entries_map(t).contains_key(k) implies entries_map(t)[k]
        == entries_map(s).insert(d@, u)[k] by {
        let i = choose|i: int| 0 <= i < t.len() && (#[trigger] t[i]).0@ == k;
        lemma_entry_in_map(t, i);
        if i < s.len() {
            assert(s[i] == t[i]);
            lemma_entry_in_map(s, i);
        }
    }
}

proof fn lemma_map_update(s: Seq<(SessionDigest, u32)>, i: int, d: SessionDigest, u: u32)
    requires
        digests_distinct(s),
        0 <= i < s.len(),
        s[i].0@ == d@,
    ensures
        digests_distinct(s.update(i, (d, u))),
        entries_map(s.update(i, (d, u))) =~= entries_map(s).insert(d@, u),
{
    let t = s.update(i, (d, u));
    assert(digests_distinct(t)) by {
        assert forall|a: int, b: int|
            0 <= a < t.len() && 0 <= b < t.len() && a != b implies (#[trigger] t[a]).0@ != (
            #[trigger] t[b]).0@ by {
            assert(t[a].0@ == s[a].0@ && t[b].0@ == s[b].0@);
        }
    }
    lemma_entry_in_map(s, i);
    assert forall|k: Seq<u8>| #[trigger] entries_map(t).contains_key(k) <==> entries_map(s).insert(
        d@,
        u,
    ).contains_key(k) by {
        if entries_map(t).contains_key(k) {
            let a = choose|a: int| 0 <= a < t.len() && (#[trigger] t[a]).0@ == k;
            assert(s[a].0@ == k);
        }
        if entries_map(s).contains_key(k) {
            let a = choose|a: int| 0 <= a < s.len() && (#[trigger] s[a]).0@ == k;
            assert(t[a].0@ == k);
        }
        if k == d@ {
            assert(t[i].0@ == k);
        }
    }
    assert forall|k: Seq<u8>| #[trigger] entries_map(t).contains_key(k) implies entries_map(t)[k]
        == entries_map(s).insert(d@, u)[k] by {
        let a = choose|a: int| 0 <= a < t.len() && (#[trigger] t[a]).0@ == k;
        lemma_entry_in_map(t, a);
        if a != i {
            lemma_entry_in_map(s, a);
        }
    }
}

proof fn lemma_map_remove(s: Seq<(SessionDigest, u32)>, i: int)
    requires
        digests_distinct(s),
        0 <= i < s.len(),
    ensures
        digests_distinct(s.remove(i)),
        entries_map(s.remove(i)) =~= entries_map(s).remove(s[i].0@),
{
    let t = s.remove(i);
    let d = s[i].0@;
    assert forall|a: int| 0 <= a < t.len() implies (#[trigger] t[a]) == if a < i {
        s[a]
    } else {
        s[a + 1]
    } by {}
    assert(digests_distinct(t)) by {
        assert forall|a: int, b: int|
            0 <= a < t.len() && 0 <= b < t.len() && a != b implies (#[trigger] t[a]).0@ != (
            #[trigger] t[b]).0@ by {
            let a2 = if a < i {
                a
            } else {
                a + 1
            };
            let b2 = if b < i {
                b
            } else {
                b + 1
            };
            assert(t[a] == s[a2] && t[b] == s[b2]);
        }
    }
    assert forall|k: Seq<u8>| #[trigger] entries_map(t).contains_key(k) <==> entries_map(s).remove(
        d,
    ).contains_key(k) by {
        if entries_map(t).contains_key(k) {
            let a = choose|a: int| 0 <= a < t.len() && (#[trigger] t[a]).0@ == k;
            let a2 = if a < i {
                a
            } else {
                a + 1
            };
            assert(t[a] == s[a2]);
            assert(s[a2].0@ == k);
        }
        if entries_map(s).contains_key(k) && k != d {
            let a = choose|a: int| 0 <= a < s.len() && (#[trigger] s[a]).0@ == k;
            if a < i {
                assert(t[a] == s[a]);
            } else {
                assert(t[a - 1] == s[a]);
            }
        }
    }
    assert forall|k: Seq<u8>| #[trigger] entries_map(t).contains_key(k) implies entries_map(t)[k]
        == entries_map(s).remove(d)[k] by {
        let a = choose|a: int| 0 <= a < t.len() && (#[trigger] t[a]).0@ == k;
        lemma_entry_in_map(t, a);
        let a2 = if a < i {
            a
        } else {
            a + 1
        };
        assert(t[a] == s[a2]);
        lemma_entry_in_map(s, a2);
    }
}

impl View for InMemorySessionsRepository {
    type V = Map<Seq<u8>, u32>;

    closed spec fn view(&self) -> Map<Seq<u8>, u32> {
        entries_map(self.0@)
    }
}

/// Whether two digests hold the same bytes.
pub fn digest_eq(a: &SessionDigest, b: &SessionDigest) -> (r: bool)
    ensures
        r == (a@ == b@),
{
    let mut i: usize = 0;
    while i < 20
        invariant
            i <= 20,
            a@.len() == 20,
            b@.len() == 20,
            forall|j: int| 0 <= j < i ==> a@[j] == b@[j],
        decreases 20 - i,
    {
        if a[i] != b[i] {
            return false;
        }
        i = i + 1;
    }
    assert(a@ =~= b@);
    true
}

impl InMemorySessionsRepository {
    #[verifier::type_invariant]
    spec fn well_formed(self) -> bool {
        digests_distinct(self.0@)
    }

    /// A repository without sessions.
    pub fn new() -> (r: Self)
        ensures
            r@ == Map::<Seq<u8>, u32>::empty(),
    {
        let r = InMemorySessionsRepository(Vec::new());
        assert(r@ =~= Map::<Seq<u8>, u32>::empty());
        r
    }

    /// The position of the entry for `session_digest`, if there is one.
    fn position(&self, session_digest: &SessionDigest) -> (r: Option<usize>)
        ensures
            match r {
                Some(i) => i < self.0@.len() && self.0@[i as int].0@ == session_digest@,
                None => !self@.contains_key(session_digest@),
            },
    {
        let mut i: usize = 0;
        while i < self.0.len()
            invariant
                i <= self.0@.len(),
                forall|j: int| 0 <= j < i ==> (#[trigger] self.0@[j]).0@ != session_digest@,
            decreases self.0@.len() - i,
        {
            if digest_eq(&self.0[i].0, session_digest) {
                return Some(i);
            }
            i = i + 1;
        }
        None
    }

    /// Handles the message that opens a session.
    pub fn handle_add(&mut self, msg: Add)
        ensures
            final(self)@ == old(self)@.insert(msg.session_digest@, msg.user_id),
    {
        self.add_session(msg.session_digest, msg.user_id);
    }
}

/// A store of open sessions.
pub trait SessionsRepository: View<V = Map<Seq<u8>, u32>> + Sized {
    /// The user that the session `session_digest` belongs to.
    fn find_session(&self, session_digest: SessionDigest) -> (r: Option<&u32>)
        ensures
            r == if self@.contains_key(session_digest@) {
                Some(&self@[session_digest@])
            } else {
                None
            },
    ;

    /// Opens the session `session_digest` for `user_id`; a session that
    /// already had that digest now belongs to `user_id`.
    fn add_session(&mut self, session_digest: SessionDigest, user_id: u32)
        ensures
            final(self)@ == old(self)@.insert(session_digest@, user_id),
    ;

    /// Closes the session `session_digest`; tells whether it was open.
    fn remove_session(&mut self, session_digest: SessionDigest) -> (r: bool)
        ensures
            r == old(self)@.contains_key(session_digest@),
            final(self)@ == old(self)@.remove(session_digest@),
    ;
}

impl SessionsRepository for InMemorySessionsRepository {
    fn find_session(&self, session_digest: SessionDigest) -> (r: Option<&u32>) {
        proof {
            use_type_invariant(self);
        }
        match self.position(&session_digest) {
            Some(i) => {
                proof {
                    lemma_entry_in_map(self.0@, i as int);
                }
                Some(&self.0[i].1)
            },
            None => None,
        }
    }

    fn add_session(&mut self, session_digest: SessionDigest, user_id: u32) {
        proof {
            use_type_invariant(&*self);
        }
        let pos = self.position(&session_digest);
        let mut entries = Vec::new();
        std::mem::swap(&mut entries, &mut self.0);
        let ghost before = entries@;
        match pos {
            Some(i) => {
                entries.set(i, (session_digest, user_id));
                proof {
                    lemma_map_update(before, i as int, session_digest, user_id);
                }
            },
            None => {
                entries.push((session_digest, user_id));
                proof {
                    lemma_map_push(before, session_digest, user_id);
                }
            },
        }
        self.0 = entries;
    }

    fn remove_session(&mut self, session_digest: SessionDigest) -> (r: bool) {
        proof {
            use_type_invariant(&*self);
        }
        let pos = self.position(&session_digest);
        match pos {
            Some(i) => {
                let mut entries = Vec::new();
                std::mem::swap(&mut entries, &mut self.0);
                let ghost before = entries@;
                entries.remove(i);
                proof {
                    lemma_map_remove(before, i as int);
                    lemma_entry_in_map(before, i as int);
                }
                self.0 = entries;
                true
            },
            None => {
                assert(old(self)@.remove(session_digest@) =~= old(self)@);
                false
            },
        }
    }
}

/// The message that opens a session for a user.
pub struct Add {
    pub session_digest: SessionDigest,
    pub user_id: u32,
}

/// Once a session is opened for a user, looking up its digest gives that
/// user; the other sessions stay as they were.
pub proof fn law_find_after_add(
    sessions: Map<Seq<u8>, u32>,
    session_digest: SessionDigest,
    other: SessionDigest,
    user_id: u32,
)
    requires
        other@ != session_digest@,
    ensures
        sessions.insert(session_digest@, user_id).contains_key(session_digest@),
        sessions.insert(session_digest@, user_id)[session_digest@] == user_id,
        sessions.insert(session_digest@, user_id).contains_key(other@) == sessions.contains_key(
            other@,
        ),
        sessions.contains_key(other@) ==> sessions.insert(session_digest@, user_id)[other@]
            == sessions[other@],
{
}

/// Once a session is closed, its digest finds no user, and closing it again
/// reports that it was not open.
pub proof fn law_find_after_remove(sessions: Map<Seq<u8>, u32>, session_digest: SessionDigest)
    ensures
        !sessions.remove(session_digest@).contains_key(session_digest@),
        sessions.remove(session_digest@).remove(session_digest@) == sessions.remove(
            session_digest@,
        ),
{
    assert(sessions.remove(session_digest@).remove(session_digest@) =~= sessions.remove(
        session_digest@,
    ));
}

} // verus!
