use vstd::prelude::*;

verus! {

/// The position of the first element of `s` that satisfies `p`, if any.
pub open spec fn first_index<T>(s: Seq<T>, p: spec_fn(T) -> bool) -> Option<int>
    decreases s.len(),
{
    if s.len() == 0 {
        None
    } else if p(s[0]) {
        Some(0)
    } else {
        match first_index(s.drop_first(), p) {
            Some(i) => Some(i + 1),
            None => None,
        }
    }
}

/// The first element of `s` that satisfies `p`, if any.
pub open spec fn find_first<T>(s: Seq<T>, p: spec_fn(T) -> bool) -> Option<T> {
    match first_index(s, p) {
        Some(i) => Some(s[i]),
        None => None,
    }
}

/// What `first_index` gives: a position that satisfies `p`, none before it;
/// or no position at all.
pub proof fn lemma_first_index<T>(s: Seq<T>, p: spec_fn(T) -> bool)
    ensures
        match first_index(s, p) {
            Some(i) => 0 <= i < s.len() && p(s[i]) && forall|j: int| 0 <= j < i ==> !p(#[trigger] s[j]),
            None => forall|j: int| 0 <= j < s.len() ==> !p(#[trigger] s[j]),
        },
    decreases s.len(),
{
    if s.len() > 0 && !p(s[0]) {
        lemma_first_index(s.drop_first(), p);
        match first_index(s.drop_first(), p) {
            Some(i) => {
                assert forall|j: int| 0 <= j < i + 1 implies !p(#[trigger] s[j]) by {
                    if j > 0 {
                        assert(s[j] == s.drop_first()[j - 1]);
                    }
                }
            },
            None => {
                assert forall|j: int| 0 <= j < s.len() implies !p(#[trigger] s[j]) by {
                    if j > 0 {
                        assert(s[j] == s.drop_first()[j - 1]);
                    }
                }
            },
        }
    }
}

/// A position that satisfies `p`, with none before it, is the first one.
pub proof fn lemma_first_index_at<T>(s: Seq<T>, p: spec_fn(T) -> bool, i: int)
    requires
        0 <= i < s.len(),
        p(s[i]),
        forall|j: int| 0 <= j < i ==> !p(#[trigger] s[j]),
    ensures
        first_index(s, p) == Some(i),
{
    lemma_first_index(s, p);
    match first_index(s, p) {
        Some(k) => {
            if k < i {
                assert(!p(s[k]));
            } else if k > i {
                assert(!p(s[i]));
            }
        },
        None => {
            assert(!p(s[i]));
        },
    }
}

/// Where no element satisfies `p`, there is no first one.
pub proof fn lemma_first_index_none<T>(s: Seq<T>, p: spec_fn(T) -> bool)
    requires
        forall|j: int| 0 <= j < s.len() ==> !p(#[trigger] s[j]),
    ensures
        first_index(s, p) is None,
{
    lemma_first_index(s, p);
    if let Some(k) = first_index(s, p) {
        assert(!p(s[k]));
    }
}

/// The greatest key among the elements of `s`, or 0 for an empty sequence.
pub open spec fn max_key<T>(s: Seq<T>, key: spec_fn(T) -> int) -> int
    decreases s.len(),
{
    if s.len() == 0 {
        0
    } else {
        let m = max_key(s.drop_last(), key);
        if key(s.last()) > m {
            key(s.last())
        } else {
            m
        }
    }
}

/// No key exceeds `max_key`, and with keys that are not negative it is not
/// negative either.
pub proof fn lemma_max_key<T>(s: Seq<T>, key: spec_fn(T) -> int)
    ensures
        forall|j: int| 0 <= j < s.len() ==> key(#[trigger] s[j]) <= max_key(s, key),
        (forall|j: int| 0 <= j < s.len() ==> key(#[trigger] s[j]) >= 0) ==> max_key(s, key) >= 0,
    decreases s.len(),
{
    if s.len() > 0 {
        lemma_max_key(s.drop_last(), key);
        assert forall|j: int| 0 <= j < s.len() implies key(#[trigger] s[j]) <= max_key(s, key) by {
            if j < s.len() - 1 {
                assert(s[j] == s.drop_last()[j]);
            }
        }
        if forall|j: int| 0 <= j < s.len() ==> key(#[trigger] s[j]) >= 0 {
            assert forall|j: int| 0 <= j < s.drop_last().len() implies key(
                #[trigger] s.drop_last()[j],
            ) >= 0 by {
                assert(s.drop_last()[j] == s[j]);
            }
        }
    }
}

/// Pairs the elements of `a` and `b` position by position, as far as the
/// shorter one goes.
pub open spec fn zip<A, B>(a: Seq<A>, b: Seq<B>) -> Seq<(A, B)> {
    let n = if a.len() <= b.len() {
        a.len()
    } else {
        b.len()
    };
    Seq::new(n, |i: int| (a[i], b[i]))
}

} // verus!
