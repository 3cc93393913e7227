//! Association lists in the dictionary order of their keys: the model of the post index.

use vstd::prelude::*;
use crate::assoc::{has_key, lemma_lookup_at, lemma_put, lookup, position, put, unique_keys};
use crate::text::{
    lemma_text_before_asymmetric, lemma_text_before_irreflexive, lemma_text_before_total,
    lemma_text_before_transitive, text_before,
};

verus! {

/// The keys of `s` stand in strictly ascending dictionary order.
pub open spec fn ascending<V>(s: Seq<(Seq<char>, V)>) -> bool {
    forall|i: int, j: int|
        0 <= i < j < s.len() ==> text_before((#[trigger] s[i]).0, (#[trigger] s[j]).0)
}

/// The number of keys of `s` that come before `k`.
pub open spec fn rank<V>(s: Seq<(Seq<char>, V)>, k: Seq<char>) -> int
    decreases s.len(),
{
    if s.len() == 0 {
        0
    } else {
        rank(s.drop_last(), k) + if text_before(s.last().0, k) {
            1int
        } else {
            0int
        }
    }
}

/// `s` with `v` under the key `k`: in the place of the old value where `s`
/// holds the key, else after the keys that come before `k`.
pub open spec fn sorted_put<V>(s: Seq<(Seq<char>, V)>, k: Seq<char>, v: V) -> Seq<
    (Seq<char>, V),
> {
    if has_key(s, k) {
        s.update(position(s, k), (k, v))
    } else {
        s.insert(rank(s, k), (k, v))
    }
}

/// Keys in strictly ascending order do not repeat.
pub proof fn lemma_ascending_unique<V>(s: Seq<(Seq<char>, V)>)
    requires
        ascending(s),
    ensures
        unique_keys(s),
{
    assert forall|i: int, j: int|
        0 <= i < s.len() && 0 <= j < s.len() && i != j implies (#[trigger] s[i]).0 != (
    #[trigger] s[j]).0 by {
        lemma_text_before_irreflexive(s[i].0);
        if i < j {
            assert(text_before(s[i].0, s[j].0));
        } else {
            assert(text_before(s[j].0, s[i].0));
        }
    }
}

/// Where the first `i` keys are before `k` and no later one is, `k` has the rank `i`.
pub proof fn lemma_rank_split<V>(s: Seq<(Seq<char>, V)>, k: Seq<char>, i: int)
    requires
        0 <= i <= s.len(),
        forall|j: int| 0 <= j < i ==> text_before((#[trigger] s[j]).0, k),
        forall|j: int| i <= j < s.len() ==> !text_before((#[trigger] s[j]).0, k),
    ensures
        rank(s, k) == i,
    decreases s.len(),
{
    if s.len() > 0 {
        let t = s.drop_last();
        assert forall|j: int| 0 <= j < t.len() implies t[j] == s[j] by {}
        if i == s.len() {
            assert(text_before(s[i - 1].0, k));
            assert forall|j: int| 0 <= j < i - 1 implies text_before((#[trigger] t[j]).0, k) by {
                assert(t[j] == s[j]);
            }
            lemma_rank_split(t, k, i - 1);
        } else {
            assert(!text_before(s[s.len() - 1].0, k));
            assert forall|j: int| 0 <= j < i implies text_before((#[trigger] t[j]).0, k) by {
                assert(t[j] == s[j]);
            }
            assert forall|j: int| i <= j < t.len() implies !text_before((#[trigger] t[j]).0, k) by {
                assert(t[j] == s[j]);
            }
            lemma_rank_split(t, k, i);
        }
    }
}

/// Two indices in ascending order that hold the same posts under the same
/// ids are the same sequence: the order of an index depends on nothing but
/// what it holds.
pub proof fn lemma_ascending_canonical<V>(a: Seq<(Seq<char>, V)>, b: Seq<(Seq<char>, V)>)
    requires
        ascending(a),
        ascending(b),
        forall|k: Seq<char>| lookup(a, k) == lookup(b, k),
    ensures
        a == b,
    decreases a.len(),
{
    lemma_ascending_unique(a);
    lemma_ascending_unique(b);
    if a.len() == 0 {
        if b.len() > 0 {
            lemma_lookup_at(b, 0);
            assert(lookup(a, b[0].0) is None);
        }
        assert(a =~= b);
    } else {
        let n = a.len() - 1;
        lemma_lookup_at(a, n);
        assert(lookup(b, a[n].0) is Some);
        assert(b.len() > 0);
        let m = b.len() - 1;
        lemma_lookup_at(b, m);
        assert(lookup(a, b[m].0) is Some);
        // The last keys are the greatest of each side, so they are the same key.
        let pa = position(b, a[n].0);
        let pb = position(a, b[m].0);
        assert(b[pa].0 == a[n].0);
        assert(a[pb].0 == b[m].0);
        lemma_text_before_asymmetric(a[n].0, b[m].0);
        if a[n].0 != b[m].0 {
            if pa < m {
                assert(text_before(b[pa].0, b[m].0));
            }
            if pb < n {
                assert(text_before(a[pb].0, a[n].0));
            }
            assert(false);
        }
        assert(a[n] == b[m]);
        let a1 = a.drop_last();
        let b1 = b.drop_last();
        assert forall|i: int, j: int| 0 <= i < j < a1.len() implies text_before(
            (#[trigger] a1[i]).0,
            (#[trigger] a1[j]).0,
        ) by {
            assert(a1[i] == a[i] && a1[j] == a[j]);
        }
        assert forall|i: int, j: int| 0 <= i < j < b1.len() implies text_before(
            (#[trigger] b1[i]).0,
            (#[trigger] b1[j]).0,
        ) by {
            assert(b1[i] == b[i] && b1[j] == b[j]);
        }
        lemma_ascending_unique(a1);
        lemma_ascending_unique(b1);
        assert forall|k: Seq<char>| lookup(a1, k) == lookup(b1, k) by {
            lemma_drop_last_lookup(a, k);
            lemma_drop_last_lookup(b, k);
        }
        lemma_ascending_canonical(a1, b1);
        assert(a =~= a1.push(a[n]));
        assert(b =~= b1.push(b[m]));
    }
}

proof fn lemma_drop_last_lookup<V>(s: Seq<(Seq<char>, V)>, k: Seq<char>)
    requires
        unique_keys(s),
        s.len() > 0,
    ensures
        lookup(s.drop_last(), k) == if k == s.last().0 {
            None
        } else {
            lookup(s, k)
        },
{
    let t = s.drop_last();
    let n = s.len() - 1;
    assert forall|i: int, j: int|
        0 <= i < t.len() && 0 <= j < t.len() && i != j implies (#[trigger] t[i]).0 != (
    #[trigger] t[j]).0 by {
        assert(t[i] == s[i] && t[j] == s[j]);
    }
    if has_key(t, k) {
        let i = position(t, k);
        assert(t[i] == s[i]);
        assert(s[i].0 == k);
        lemma_lookup_at(s, i);
        lemma_lookup_at(t, i);
        assert(k != s[n].0);
    } else if has_key(s, k) {
        let i = position(s, k);
        if i < n {
            assert(t[i] == s[i]);
            assert(false);
        }
    }
}

/// The index that holds the posts of `entries`, each put under its id in
/// turn: of two posts with one id the later one stays.
pub open spec fn filled<V>(entries: Seq<(Seq<char>, V)>) -> Seq<(Seq<char>, V)>
    decreases entries.len(),
{
    if entries.len() == 0 {
        Seq::empty()
    } else {
        sorted_put(filled(entries.drop_last()), entries.last().0, entries.last().1)
    }
}

/// An index in ascending order holds an id at one position and no other.
pub proof fn lemma_one_entry_per_id<V>(s: Seq<(Seq<char>, V)>, id: Seq<char>)
    requires
        ascending(s),
        has_key(s, id),
    ensures
        0 <= position(s, id) < s.len(),
        s[position(s, id)].0 == id,
        forall|j: int| 0 <= j < s.len() && (#[trigger] s[j]).0 == id ==> j == position(s, id),
{
    lemma_ascending_unique(s);
}

/// The index of a list of posts holds each post of the list under its id,
/// at one position and no other, and holds no other id. Under an id that
/// several posts of the list have, it holds the last of them.
pub proof fn lemma_filled<V>(entries: Seq<(Seq<char>, V)>)
    ensures
        ascending(filled(entries)),
        forall|i: int| 0 <= i < entries.len() ==> has_key(filled(entries), (#[trigger] entries[i]).0),
        forall|id: Seq<char>| has_key(filled(entries), id) ==> has_key(entries, id),
        forall|a: int, b: int|
            0 <= a < filled(entries).len() && 0 <= b < filled(entries).len() && (
            #[trigger] filled(entries)[a]).0 == (#[trigger] filled(entries)[b]).0 ==> a == b,
        forall|i: int|
            0 <= i < entries.len() && (forall|j: int|
                i < j < entries.len() ==> (#[trigger] entries[j]).0 != entries[i].0) ==> lookup(
                filled(entries),
                (#[trigger] entries[i]).0,
            ) == Some(entries[i].1),
    decreases entries.len(),
{
    if entries.len() > 0 {
        let rest = entries.drop_last();
        let last = entries.last();
        let n = entries.len() - 1;
        lemma_filled(rest);
        lemma_sorted_put_ascending(filled(rest), last.0, last.1);
        lemma_sorted_put(filled(rest), last.0, last.1);
        lemma_ascending_unique(filled(entries));
        assert forall|i: int| 0 <= i < entries.len() implies has_key(
            filled(entries),
            (#[trigger] entries[i]).0,
        ) by {
            if i < rest.len() {
                assert(rest[i] == entries[i]);
            }
        }
        assert forall|id: Seq<char>| has_key(filled(entries), id) implies has_key(entries, id) by {
            if id == last.0 {
                assert(entries[n].0 == id);
            } else {
                assert(has_key(rest, id));
                let i = position(rest, id);
                assert(entries[i] == rest[i]);
            }
        }
        assert forall|i: int|
            0 <= i < entries.len() && (forall|j: int|
                i < j < entries.len() ==> (#[trigger] entries[j]).0 != entries[i].0) implies lookup(
            filled(entries),
            (#[trigger] entries[i]).0,
        ) == Some(entries[i].1) by {
            if i < n {
                assert(entries[n].0 != entries[i].0);
                assert(rest[i] == entries[i]);
                assert forall|j: int| i < j < rest.len() implies (#[trigger] rest[j]).0
                    != rest[i].0 by {
                    assert(rest[j] == entries[j]);
                }
            }
        }
    } else {
        lemma_ascending_unique(filled(entries));
    }
}

/// `sorted_put` keeps the ids in ascending order.
pub proof fn lemma_sorted_put_ascending<V>(s: Seq<(Seq<char>, V)>, k: Seq<char>, v: V)
    requires
        ascending(s),
    ensures
        ascending(sorted_put(s, k, v)),
{
    let t = sorted_put(s, k, v);
    lemma_ascending_unique(s);
    if has_key(s, k) {
        let p = position(s, k);
        assert forall|a: int, b: int| 0 <= a < b < t.len() implies text_before(
            (#[trigger] t[a]).0,
            (#[trigger] t[b]).0,
        ) by {
            assert(t[a].0 == s[a].0);
            assert(t[b].0 == s[b].0);
        }
    } else {
        let r = rank(s, k);
        lemma_rank_bounds(s, k);
        lemma_rank_is_bound(s, k);
        assert forall|a: int, b: int| 0 <= a < b < t.len() implies text_before(
            (#[trigger] t[a]).0,
            (#[trigger] t[b]).0,
        ) by {
            if b < r {
                assert(t[a] == s[a] && t[b] == s[b]);
            } else if b == r {
                assert(t[a] == s[a]);
            } else if a < r {
                assert(t[a] == s[a] && t[b] == s[b - 1]);
                lemma_text_before_total(s[b - 1].0, k);
                lemma_text_before_transitive(s[a].0, k, s[b - 1].0);
            } else if a == r {
                assert(t[b] == s[b - 1]);
                lemma_text_before_total(s[b - 1].0, k);
            } else {
                assert(t[a] == s[a - 1] && t[b] == s[b - 1]);
            }
        }
    }
}

/// In ascending order the ids before `k` are the first `rank` ones.
proof fn lemma_rank_is_bound<V>(s: Seq<(Seq<char>, V)>, k: Seq<char>)
    requires
        ascending(s),
    ensures
        forall|j: int| 0 <= j < rank(s, k) && j < s.len() ==> text_before((#[trigger] s[j]).0, k),
        forall|j: int| rank(s, k) <= j < s.len() ==> !text_before((#[trigger] s[j]).0, k),
    decreases s.len(),
{
    if s.len() > 0 {
        let t = s.drop_last();
        let n = s.len() - 1;
        assert forall|i: int, j: int| 0 <= i < j < t.len() implies text_before(
            (#[trigger] t[i]).0,
            (#[trigger] t[j]).0,
        ) by {
            assert(t[i] == s[i] && t[j] == s[j]);
        }
        lemma_rank_is_bound(t, k);
        lemma_rank_bounds(t, k);
        assert forall|j: int| 0 <= j < t.len() implies t[j] == s[j] by {}
        if text_before(s[n].0, k) {
            // Every id before the last one is before `k` too.
            assert forall|j: int| 0 <= j < n implies text_before((#[trigger] s[j]).0, k) by {
                lemma_text_before_transitive(s[j].0, s[n].0, k);
            }
            if rank(t, k) < n {
                assert(!text_before(t[rank(t, k)].0, k));
                assert(false);
            }
        } else {
            assert forall|j: int| 0 <= j < rank(s, k) && j < s.len() implies text_before(
                (#[trigger] s[j]).0,
                k,
            ) by {
                assert(t[j] == s[j]);
            }
            assert forall|j: int| rank(s, k) <= j < s.len() implies !text_before(
                (#[trigger] s[j]).0,
                k,
            ) by {
                if j < n {
                    assert(t[j] == s[j]);
                }
            }
        }
    }
}

/// `sorted_put` stores the value and leaves every other id as it was.
pub proof fn lemma_sorted_put<V>(s: Seq<(Seq<char>, V)>, k: Seq<char>, v: V)
    requires
        ascending(s),
        ascending(sorted_put(s, k, v)),
    ensures
        lookup(sorted_put(s, k, v), k) == Some(v),
        forall|other: Seq<char>| other != k ==> lookup(sorted_put(s, k, v), other) == lookup(s, other),
        forall|other: Seq<char>| has_key(sorted_put(s, k, v), other) <==> other == k || has_key(s, other),
{
    let t = sorted_put(s, k, v);
    lemma_ascending_unique(s);
    lemma_ascending_unique(t);
    if has_key(s, k) {
        lemma_put(s, k, v);
        assert(t == put(s, k, v));
    } else {
        let r = rank(s, k);
        lemma_rank_bounds(s, k);
        assert(t[r] == (k, v));
        lemma_lookup_at(t, r);
        assert forall|other: Seq<char>| has_key(t, other) <==> other == k || has_key(s, other) by {
            if has_key(t, other) {
                let i = position(t, other);
                if i < r {
                    assert(t[i] == s[i]);
                } else if i > r {
                    assert(t[i] == s[i - 1]);
                }
            }
            if has_key(s, other) {
                let i = position(s, other);
                if i < r {
                    assert(t[i] == s[i]);
                } else {
                    assert(t[i + 1] == s[i]);
                }
            }
        }
        assert forall|other: Seq<char>| other != k implies lookup(t, other) == lookup(s, other) by {
            if has_key(s, other) {
                let i = position(s, other);
                lemma_lookup_at(s, i);
                if i < r {
                    assert(t[i] == s[i]);
                    lemma_lookup_at(t, i);
                } else {
                    assert(t[i + 1] == s[i]);
                    lemma_lookup_at(t, i + 1);
                }
            }
        }
    }
}

proof fn lemma_rank_bounds<V>(s: Seq<(Seq<char>, V)>, k: Seq<char>)
    ensures
        0 <= rank(s, k) <= s.len(),
    decreases s.len(),
{
    if s.len() > 0 {
        lemma_rank_bounds(s.drop_last(), k);
    }
}

} // verus!
