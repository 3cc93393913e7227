//! Association lists: the mathematical model of the content indices.
//!
//! An index is a sequence of (key, value) pairs in which no key occurs twice.

use vstd::prelude::*;

verus! {

/// Whether some pair of `s` has the key `k`.
pub open spec fn has_key<K, V>(s: Seq<(K, V)>, k: K) -> bool {
    exists|i: int| 0 <= i < s.len() && (#[trigger] s[i]).0 == k
}

/// No key occurs twice in `s`.
pub open spec fn unique_keys<K, V>(s: Seq<(K, V)>) -> bool {
    forall|i: int, j: int|
        0 <= i < s.len() && 0 <= j < s.len() && i != j ==> (#[trigger] s[i]).0 != (
        #[trigger] s[j]).0
}

/// A position at which `s` holds the key `k`.
pub open spec fn position<K, V>(s: Seq<(K, V)>, k: K) -> int {
    choose|i: int| 0 <= i < s.len() && (#[trigger] s[i]).0 == k
}

/// The value that `s` holds under the key `k`, if it holds the key.
pub open spec fn lookup<K, V>(s: Seq<(K, V)>, k: K) -> Option<V> {
    if has_key(s, k) {
        Some(s[position(s, k)].1)
    } else {
        None
    }
}

/// `s` with `v` under the key `k`: in the place of the old value where `s`
/// holds the key, else at the end.
pub open spec fn put<K, V>(s: Seq<(K, V)>, k: K, v: V) -> Seq<(K, V)> {
    if has_key(s, k) {
        s.update(position(s, k), (k, v))
    } else {
        s.push((k, v))
    }
}

/// In a list without repeated keys, the pair at position `i` is the one found under its key.
pub proof fn lemma_lookup_at<K, V>(s: Seq<(K, V)>, i: int)
    requires
        unique_keys(s),
        0 <= i < s.len(),
    ensures
        has_key(s, s[i].0),
        position(s, s[i].0) == i,
        lookup(s, s[i].0) == Some(s[i].1),
{
    assert(has_key(s, s[i].0));
    let p = position(s, s[i].0);
    assert(s[p].0 == s[i].0);
}

/// `put` keeps the keys unique, stores the value, and leaves every other key as it was.
pub proof fn lemma_put<K, V>(s: Seq<(K, V)>, k: K, v: V)
    requires
        unique_keys(s),
    ensures
        unique_keys(put(s, k, v)),
        lookup(put(s, k, v), k) == Some(v),
        forall|other: K| other != k ==> lookup(put(s, k, v), other) == lookup(s, other),
        forall|other: K| has_key(put(s, k, v), other) <==> other == k || has_key(s, other),
{
    let t = put(s, k, v);
    if has_key(s, k) {
        let p = position(s, k);
        assert(t[p] == (k, v));
        assert(unique_keys(t)) by {
            assert forall|i: int, j: int|
                0 <= i < t.len() && 0 <= j < t.len() && i != j implies (#[trigger] t[i]).0 != (
            #[trigger] t[j]).0 by {
                assert(t[i].0 == s[i].0);
                assert(t[j].0 == s[j].0);
            }
        }
        lemma_lookup_at(t, p);
        assert forall|other: K| has_key(t, other) <==> other == k || has_key(s, other) by {
            if has_key(t, other) {
                let i = position(t, other);
                assert(t[i].0 == s[i].0);
                assert(s[i].0 == other);
            }
            if has_key(s, other) {
                let i = position(s, other);
                assert(t[i].0 == s[i].0);
            }
        }
        assert forall|other: K| other != k implies lookup(t, other) == lookup(s, other) by {
            if has_key(s, other) {
                let i = position(s, other);
                assert(i != p);
                assert(t[i] == s[i]);
                lemma_lookup_at(s, i);
                lemma_lookup_at(t, i);
            }
        }
    } else {
        let p = s.len() as int;
        assert(t[p] == (k, v));
        assert(unique_keys(t)) by {
            assert forall|i: int, j: int|
                0 <= i < t.len() && 0 <= j < t.len() && i != j implies (#[trigger] t[i]).0 != (
            #[trigger] t[j]).0 by {
                if i < p {
                    assert(t[i] == s[i]);
                }
                if j < p {
                    assert(t[j] == s[j]);
                }
            }
        }
        lemma_lookup_at(t, p);
        assert forall|other: K| has_key(t, other) <==> other == k || has_key(s, other) by {
            if has_key(t, other) {
                let i = position(t, other);
                if i < p {
                    assert(t[i] == s[i]);
                }
            }
            if has_key(s, other) {
                let i = position(s, other);
                assert(t[i] == s[i]);
            }
        }
        assert forall|other: K| other != k implies lookup(t, other) == lookup(s, other) by {
            if has_key(s, other) {
                let i = position(s, other);
                assert(t[i] == s[i]);
                lemma_lookup_at(s, i);
                lemma_lookup_at(t, i);
            }
        }
    }
}

} // verus!
