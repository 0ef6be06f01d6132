//! Stable sorting by an integer key, as a model and with its laws.

use vstd::prelude::*;

verus! {

/// Whether the keys of `s` never fall from left to right.
pub open spec fn sorted_by<T>(s: Seq<T>, key: spec_fn(T) -> int) -> bool {
    forall|i: int, j: int| 0 <= i < j < s.len() ==> key(s[i]) <= key(s[j])
}

/// Where `t` goes in `s`: behind the last item whose key is not above its own.
pub open spec fn insert_position<T>(s: Seq<T>, t: T, key: spec_fn(T) -> int) -> int
    decreases s.len(),
{
    if s.len() == 0 {
        0
    } else if key(s.last()) <= key(t) {
        s.len() as int
    } else {
        insert_position(s.drop_last(), t, key)
    }
}

/// `s` with `t` put at its place.
pub open spec fn insert_by<T>(s: Seq<T>, t: T, key: spec_fn(T) -> int) -> Seq<T> {
    s.insert(insert_position(s, t, key), t)
}

/// `s` sorted by key, items of equal key in the order they had.
pub open spec fn sort_by<T>(s: Seq<T>, key: spec_fn(T) -> int) -> Seq<T>
    decreases s.len(),
{
    if s.len() == 0 {
        s
    } else {
        insert_by(sort_by(s.drop_last(), key), s.last(), key)
    }
}

/// The place of insertion lies in the sequence, with no greater key before it
/// and only greater keys from it on.
pub proof fn lemma_insert_position<T>(s: Seq<T>, t: T, key: spec_fn(T) -> int)
    ensures
        0 <= insert_position(s, t, key) <= s.len(),
        insert_position(s, t, key) > 0 ==> key(s[insert_position(s, t, key) - 1]) <= key(t),
        forall|j: int| insert_position(s, t, key) <= j < s.len() ==> key(s[j]) > key(t),
    decreases s.len(),
{
    if s.len() > 0 && key(s.last()) > key(t) {
        let d = s.drop_last();
        lemma_insert_position(d, t, key);
        let p = insert_position(d, t, key);
        assert forall|j: int| p <= j < s.len() implies key(s[j]) > key(t) by {
            if j < d.len() {
                assert(s[j] == d[j]);
            }
        }
        if p > 0 {
            assert(s[p - 1] == d[p - 1]);
        }
    }
}

/// A place with no greater key just before it and only greater keys from it
/// on is the place of insertion.
pub proof fn lemma_insert_position_unique<T>(s: Seq<T>, t: T, key: spec_fn(T) -> int, p: int)
    requires
        0 <= p <= s.len(),
        p > 0 ==> key(s[p - 1]) <= key(t),
        forall|j: int| p <= j < s.len() ==> key(s[j]) > key(t),
    ensures
        insert_position(s, t, key) == p,
    decreases s.len(),
{
    if s.len() > 0 && key(s.last()) > key(t) {
        let d = s.drop_last();
        assert(p < s.len());
        assert forall|j: int| p <= j < d.len() implies key(d[j]) > key(t) by {
            assert(d[j] == s[j]);
        }
        if p > 0 {
            assert(s[p - 1] == d[p - 1]);
        }
        lemma_insert_position_unique(d, t, key, p);
    } else if s.len() > 0 {
        if p < s.len() {
            assert(key(s[s.len() - 1]) > key(t));
        }
    }
}

/// Insertion keeps a sorted sequence sorted and adds exactly the one item.
pub proof fn lemma_insert_by<T>(s: Seq<T>, t: T, key: spec_fn(T) -> int)
    requires
        sorted_by(s, key),
    ensures
        sorted_by(insert_by(s, t, key), key),
        insert_by(s, t, key).len() == s.len() + 1,
        insert_by(s, t, key).to_multiset() == s.to_multiset().insert(t),
{
    let p = insert_position(s, t, key);
    lemma_insert_position(s, t, key);
    vstd::seq_lib::to_multiset_insert(s, p, t);
    let r = s.insert(p, t);
    assert forall|i: int, j: int| 0 <= i < j < r.len() implies key(r[i]) <= key(r[j]) by {
        if i < p && j == p {
            assert(key(s[i]) <= key(s[p - 1]) || i == p - 1);
        } else if i < p && j > p {
            assert(r[j] == s[j - 1]);
        } else if i == p {
            assert(r[j] == s[j - 1]);
        } else if i > p {
            assert(r[i] == s[i - 1] && r[j] == s[j - 1]);
        }
    }
}

/// Sorting yields a sorted sequence of the same items.
pub proof fn lemma_sort_by<T>(s: Seq<T>, key: spec_fn(T) -> int)
    ensures
        sorted_by(sort_by(s, key), key),
        sort_by(s, key).len() == s.len(),
        sort_by(s, key).to_multiset() == s.to_multiset(),
    decreases s.len(),
{
    if s.len() > 0 {
        lemma_sort_by(s.drop_last(), key);
        lemma_insert_by(sort_by(s.drop_last(), key), s.last(), key);
        vstd::seq_lib::to_multiset_build(s.drop_last(), s.last());
        assert(s.drop_last().push(s.last()) =~= s);
    }
}

/// A sorted sequence is left as it is.
pub proof fn lemma_sort_by_sorted<T>(s: Seq<T>, key: spec_fn(T) -> int)
    requires
        sorted_by(s, key),
    ensures
        sort_by(s, key) == s,
    decreases s.len(),
{
    if s.len() > 0 {
        let d = s.drop_last();
        lemma_sort_by_sorted(d, key);
        if d.len() > 0 {
            assert(d.last() == s[d.len() - 1]);
        }
        lemma_insert_position_unique(d, s.last(), key, d.len() as int);
        assert(d.insert(d.len() as int, s.last()) =~= s);
    }
}

/// Every item of a sorted result satisfies what every item of the input satisfies.
pub proof fn lemma_sort_by_all<T>(s: Seq<T>, key: spec_fn(T) -> int, p: spec_fn(T) -> bool)
    requires
        forall|i: int| 0 <= i < s.len() ==> p(s[i]),
    ensures
        forall|i: int| 0 <= i < sort_by(s, key).len() ==> p(#[trigger] sort_by(s, key)[i]),
    decreases s.len(),
{
    if s.len() > 0 {
        let d = s.drop_last();
        assert forall|i: int| 0 <= i < d.len() implies p(d[i]) by {
            assert(d[i] == s[i]);
        }
        lemma_sort_by_all(d, key, p);
        let q = sort_by(d, key);
        lemma_insert_position(q, s.last(), key);
        let pos = insert_position(q, s.last(), key);
        let r = q.insert(pos, s.last());
        assert forall|i: int| 0 <= i < r.len() implies p(#[trigger] r[i]) by {
            if i < pos {
                assert(r[i] == q[i]);
            } else if i == pos {
                assert(r[i] == s.last());
            } else {
                assert(r[i] == q[i - 1]);
            }
        }
    }
}

} // verus!
