//! Association lists: the model of keyed records, with their laws.
use vstd::prelude::*;

verus! {

/// The position of the first entry under `k`, or the length where there is none.
pub open spec fn slot<K, V>(s: Seq<(K, V)>, k: K) -> int
    decreases s.len(),
{
    if s.len() == 0 {
        0
    } else if s[0].0 == k {
        0
    } else {
        1 + slot(s.skip(1), k)
    }
}

/// Whether an entry stands under `k`.
pub open spec fn holds_key<K, V>(s: Seq<(K, V)>, k: K) -> bool {
    slot(s, k) < s.len()
}

/// The value under `k`, if there is one.
pub open spec fn get<K, V>(s: Seq<(K, V)>, k: K) -> Option<V> {
    if holds_key(s, k) {
        Some(s[slot(s, k)].1)
    } else {
        None
    }
}

/// Store `v` under `k`, in place where the key exists, else at the end.
pub open spec fn put<K, V>(s: Seq<(K, V)>, k: K, v: V) -> Seq<(K, V)> {
    if holds_key(s, k) {
        s.update(slot(s, k), (k, v))
    } else {
        s.push((k, v))
    }
}

/// Take the entry under `k` out.
pub open spec fn del<K, V>(s: Seq<(K, V)>, k: K) -> Seq<(K, V)> {
    if holds_key(s, k) {
        s.remove(slot(s, k))
    } else {
        s
    }
}

/// The position of the first key above `k`.
pub open spec fn rank<V>(s: Seq<(u64, V)>, k: u64) -> int
    decreases s.len(),
{
    if s.len() == 0 {
        0
    } else if s[0].0 > k {
        0
    } else {
        1 + rank(s.skip(1), k)
    }
}

/// Store `v` under `k`, in place where the key exists, else before the first
/// larger key.
pub open spec fn put_ranked<V>(s: Seq<(u64, V)>, k: u64, v: V) -> Seq<(u64, V)> {
    if holds_key(s, k) {
        s.update(slot(s, k), (k, v))
    } else {
        s.insert(rank(s, k), (k, v))
    }
}

/// Whether no two entries share a key.
pub open spec fn keys_distinct<K, V>(s: Seq<(K, V)>) -> bool {
    forall|i: int, j: int| 0 <= i < j < s.len() ==> #[trigger] s[i].0 != #[trigger] s[j].0
}

/// Whether the keys rise strictly.
pub open spec fn keys_rise<V>(s: Seq<(u64, V)>) -> bool {
    forall|i: int, j: int| 0 <= i < j < s.len() ==> #[trigger] s[i].0 < #[trigger] s[j].0
}

pub proof fn lemma_slot<K, V>(s: Seq<(K, V)>, k: K)
    ensures
        0 <= slot(s, k) <= s.len(),
        forall|j: int| 0 <= j < slot(s, k) ==> (#[trigger] s[j]).0 != k,
        slot(s, k) < s.len() ==> s[slot(s, k)].0 == k,
    decreases s.len(),
{
    if s.len() > 0 && s[0].0 != k {
        let t = s.skip(1);
        lemma_slot(t, k);
        assert forall|j: int| 0 <= j < slot(s, k) implies (#[trigger] s[j]).0 != k by {
            if j > 0 {
                assert(t[j - 1] == s[j]);
            }
        }
        if slot(t, k) < t.len() {
            assert(t[slot(t, k)] == s[slot(s, k)]);
        }
    }
}

/// The slot is where a left-to-right search stops.
pub proof fn lemma_slot_is<K, V>(s: Seq<(K, V)>, k: K, i: int)
    requires
        0 <= i <= s.len(),
        forall|j: int| 0 <= j < i ==> (#[trigger] s[j]).0 != k,
        i < s.len() ==> s[i].0 == k,
    ensures
        slot(s, k) == i,
{
    lemma_slot(s, k);
    if slot(s, k) < i {
        assert(s[slot(s, k)].0 != k);
    }
    if i < slot(s, k) {
        assert(s[i].0 != k);
    }
}

pub proof fn lemma_rank<V>(s: Seq<(u64, V)>, k: u64)
    ensures
        0 <= rank(s, k) <= s.len(),
        forall|j: int| 0 <= j < rank(s, k) ==> (#[trigger] s[j]).0 <= k,
        rank(s, k) < s.len() ==> s[rank(s, k)].0 > k,
    decreases s.len(),
{
    if s.len() > 0 && s[0].0 <= k {
        let t = s.skip(1);
        lemma_rank(t, k);
        assert forall|j: int| 0 <= j < rank(s, k) implies (#[trigger] s[j]).0 <= k by {
            if j > 0 {
                assert(t[j - 1] == s[j]);
            }
        }
        if rank(t, k) < t.len() {
            assert(t[rank(t, k)] == s[rank(s, k)]);
        }
    }
}

/// The rank is where a left-to-right search for a larger key stops.
pub proof fn lemma_rank_is<V>(s: Seq<(u64, V)>, k: u64, i: int)
    requires
        0 <= i <= s.len(),
        forall|j: int| 0 <= j < i ==> (#[trigger] s[j]).0 <= k,
        i < s.len() ==> s[i].0 > k,
    ensures
        rank(s, k) == i,
{
    lemma_rank(s, k);
    if rank(s, k) < i {
        assert(s[rank(s, k)].0 <= k);
    }
    if i < rank(s, k) {
        assert(s[i].0 <= k);
    }
}

/// A stored value is read back, other keys read as before, and distinct keys
/// stay distinct.
pub proof fn lemma_put<K, V>(s: Seq<(K, V)>, k: K, v: V)
    ensures
        get(put(s, k, v), k) == Some(v),
        forall|other: K| other != k ==> #[trigger] get(put(s, k, v), other) == get(s, other),
        keys_distinct(s) ==> keys_distinct(put(s, k, v)),
        put(s, k, v).len() == s.len() + if holds_key(s, k) {
            0int
        } else {
            1
        },
{
    let t = put(s, k, v);
    let i = slot(s, k);
    lemma_slot(s, k);
    assert(t[i] == (k, v));
    assert forall|j: int| 0 <= j < i implies (#[trigger] t[j]).0 != k by {
        assert(t[j] == s[j]);
    }
    lemma_slot_is(t, k, i);
    assert forall|other: K| other != k implies #[trigger] get(t, other) == get(s, other) by {
        let o = slot(s, other);
        lemma_slot(s, other);
        if o < s.len() {
            assert forall|j: int| 0 <= j < o implies (#[trigger] t[j]).0 != other by {
                if j != i {
                    assert(t[j] == s[j]);
                }
            }
            assert(t[o] == s[o]);
            lemma_slot_is(t, other, o);
        } else {
            assert forall|j: int| 0 <= j < t.len() implies (#[trigger] t[j]).0 != other by {
                if j != i {
                    assert(t[j] == s[j]);
                }
            }
            lemma_slot_is(t, other, t.len() as int);
        }
    }
    if keys_distinct(s) {
        assert forall|a: int, b: int| 0 <= a < b < t.len() implies #[trigger] t[a].0
            != #[trigger] t[b].0 by {
            if a != i {
                assert(t[a] == s[a]);
            }
            if b != i {
                assert(t[b] == s[b]);
            }
            if a == i && b < s.len() {
                assert(s[a].0 == k);
            }
        }
    }
}

/// The same for a list kept in key order, which stays in key order.
pub proof fn lemma_put_ranked<V>(s: Seq<(u64, V)>, k: u64, v: V)
    requires
        keys_rise(s),
    ensures
        get(put_ranked(s, k, v), k) == Some(v),
        forall|other: u64|
            other != k ==> #[trigger] get(put_ranked(s, k, v), other) == get(s, other),
        keys_rise(put_ranked(s, k, v)),
        put_ranked(s, k, v).len() == s.len() + if holds_key(s, k) {
            0int
        } else {
            1
        },
{
    let t = put_ranked(s, k, v);
    lemma_slot(s, k);
    lemma_rank(s, k);
    if holds_key(s, k) {
        lemma_put(s, k, v);
        assert(t == put(s, k, v));
        let i = slot(s, k);
        assert forall|a: int, b: int| 0 <= a < b < t.len() implies #[trigger] t[a].0
            < #[trigger] t[b].0 by {
            assert(t[a].0 == s[a].0);
            assert(t[b].0 == s[b].0);
        }
    } else {
        let i = rank(s, k);
        assert(t[i] == (k, v));
        assert forall|j: int| 0 <= j < i implies (#[trigger] t[j]) == s[j] && t[j].0 < k by {
            assert(s[j].0 <= k);
            assert(s[j].0 != k);
        }
        assert forall|j: int| i < j < t.len() implies (#[trigger] t[j]) == s[j - 1] && t[j].0
            > k by {
            assert(s[j - 1].0 >= s[i].0) by {
                if i < j - 1 {
                    assert(s[i].0 < s[j - 1].0);
                }
            }
        }
        lemma_slot_is(t, k, i);
        assert forall|a: int, b: int| 0 <= a < b < t.len() implies #[trigger] t[a].0
            < #[trigger] t[b].0 by {
            if a < i && b > i {
                assert(t[a].0 < k && k < t[b].0);
            } else if a > i {
                assert(s[a - 1].0 < s[b - 1].0);
                assert(t[a] == s[a - 1] && t[b] == s[b - 1]);
            } else if b < i {
                assert(s[a].0 < s[b].0);
            }
        }
        assert forall|other: u64| other != k implies #[trigger] get(t, other) == get(s, other) by {
            let o = slot(s, other);
            lemma_slot(s, other);
            let u = if o < i {
                o
            } else {
                o + 1
            };
            assert forall|j: int| 0 <= j < u implies (#[trigger] t[j]).0 != other by {
                if j < i {
                    assert(t[j] == s[j]);
                } else if j > i {
                    assert(t[j] == s[j - 1]);
                }
            }
            if o < s.len() {
                if o < i {
                    assert(t[u] == s[o]);
                } else {
                    assert(t[u] == s[o]);
                }
            }
            lemma_slot_is(t, other, u);
        }
    }
}

/// A removed key reads as absent, other keys read as before.
pub proof fn lemma_del<K, V>(s: Seq<(K, V)>, k: K)
    requires
        keys_distinct(s),
    ensures
        get(del(s, k), k) is None,
        forall|other: K| other != k ==> #[trigger] get(del(s, k), other) == get(s, other),
        keys_distinct(del(s, k)),
{
    let t = del(s, k);
    let i = slot(s, k);
    lemma_slot(s, k);
    if holds_key(s, k) {
        assert forall|j: int| 0 <= j < t.len() implies (#[trigger] t[j]).0 != k by {
            if j < i {
                assert(t[j] == s[j]);
            } else {
                assert(t[j] == s[j + 1]);
                assert(s[i].0 != s[j + 1].0);
            }
        }
        lemma_slot_is(t, k, t.len() as int);
        assert forall|other: K| other != k implies #[trigger] get(t, other) == get(s, other) by {
            let o = slot(s, other);
            lemma_slot(s, other);
            let u = if o < i {
                o
            } else {
                o - 1
            };
            assert forall|j: int| 0 <= j < u implies (#[trigger] t[j]).0 != other by {
                if j < i {
                    assert(t[j] == s[j]);
                } else {
                    assert(t[j] == s[j + 1]);
                }
            }
            if o < s.len() {
                assert(o != i);
                if o < i {
                    assert(t[u] == s[o]);
                } else {
                    assert(t[u] == s[u + 1]);
                }
            }
            lemma_slot_is(t, other, u);
        }
        assert forall|a: int, b: int| 0 <= a < b < t.len() implies #[trigger] t[a].0
            != #[trigger] t[b].0 by {
            let x = if a < i {
                a
            } else {
                a + 1
            };
            let y = if b < i {
                b
            } else {
                b + 1
            };
            assert(t[a] == s[x] && t[b] == s[y]);
            assert(s[x].0 != s[y].0);
        }
    }
}

/// The list as a map.
pub open spec fn as_map<K, V>(s: Seq<(K, V)>) -> Map<K, V> {
    Map::new(|k: K| holds_key(s, k), |k: K| get(s, k)->0)
}

/// Storing in the list is storing in the map.
pub proof fn lemma_put_map<K, V>(s: Seq<(K, V)>, k: K, v: V)
    ensures
        as_map(put(s, k, v)) == as_map(s).insert(k, v),
{
    lemma_put(s, k, v);
    let t = put(s, k, v);
    assert forall|x: K| #[trigger] as_map(t).contains_key(x) == as_map(s).insert(
        k,
        v,
    ).contains_key(x) by {
        if x != k {
            assert(get(t, x) == get(s, x));
        }
    }
    assert forall|x: K| as_map(t).contains_key(x) implies #[trigger] as_map(t)[x] == as_map(
        s,
    ).insert(k, v)[x] by {
        if x != k {
            assert(get(t, x) == get(s, x));
        }
    }
    assert(as_map(t) =~= as_map(s).insert(k, v));
}

/// Taking out of the list is taking out of the map.
pub proof fn lemma_del_map<K, V>(s: Seq<(K, V)>, k: K)
    requires
        keys_distinct(s),
    ensures
        as_map(del(s, k)) == as_map(s).remove(k),
{
    lemma_del(s, k);
    let t = del(s, k);
    assert forall|x: K| #[trigger] as_map(t).contains_key(x) == as_map(s).remove(k).contains_key(
        x,
    ) by {
        if x != k {
            assert(get(t, x) == get(s, x));
        }
    }
    assert forall|x: K| as_map(t).contains_key(x) implies #[trigger] as_map(t)[x] == as_map(
        s,
    ).remove(k)[x] by {
        if x != k {
            assert(get(t, x) == get(s, x));
        }
    }
    assert(as_map(t) =~= as_map(s).remove(k));
}

} // verus!
