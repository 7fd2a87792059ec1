//! Node-id sets, held as rising lists: building, comparison and differences.
use std::collections::BTreeSet;
use vstd::prelude::*;

verus! {

broadcast use {
    vstd::std_specs::btree::group_btree_axioms,
    vstd::laws_cmp::group_laws_cmp,
};

/// Whether the numbers rise strictly from left to right.
pub open spec fn rising(s: Seq<u64>) -> bool {
    forall|i: int, j: int| 0 <= i < j < s.len() ==> s[i] < s[j]
}

/// The members of `set` in rising order.
pub open spec fn rising_members(set: Set<u64>) -> Seq<u64> {
    choose|s: Seq<u64>| rising(s) && s.to_set() == set
}

/// A rising list is determined by its members.
pub proof fn lemma_rising_unique(a: Seq<u64>, b: Seq<u64>)
    requires
        rising(a),
        rising(b),
        a.to_set() == b.to_set(),
    ensures
        a == b,
    decreases a.len(),
{
    if a.len() == 0 {
        if b.len() > 0 {
            assert(b.to_set().contains(b[0]));
            assert(a.contains(b[0]));
        }
        assert(a =~= b);
    } else {
        assert(a.to_set().contains(a.last()));
        assert(b.contains(a.last()));
        let k = b.index_of(a.last());
        assert(b.to_set().contains(b.last()));
        assert(a.contains(b.last()));
        let j = a.index_of(b.last());
        assert(a[j] <= a.last());
        assert(b[k] <= b.last());
        assert(a.last() == b.last());
        let x = a.drop_last();
        let y = b.drop_last();
        assert(x.to_set() =~= y.to_set()) by {
            assert forall|v: u64| x.contains(v) implies y.contains(v) by {
                let i = x.index_of(v);
                assert(a[i] == v && v < a.last());
                assert(a.to_set().contains(v));
                assert(b.contains(v));
                let m = b.index_of(v);
                assert(y[m] == v);
            }
            assert forall|v: u64| y.contains(v) implies x.contains(v) by {
                let i = y.index_of(v);
                assert(b[i] == v && v < b.last());
                assert(b.to_set().contains(v));
                assert(a.contains(v));
                let m = a.index_of(v);
                assert(x[m] == v);
            }
        }
        lemma_rising_unique(x, y);
        assert(a =~= x.push(a.last()));
        assert(b =~= y.push(b.last()));
    }
}

/// What a rising list says of its own member set.
pub proof fn lemma_rising_set(s: Seq<u64>)
    requires
        rising(s),
    ensures
        s.no_duplicates(),
        s.to_set().finite(),
        s.to_set().len() == s.len(),
        rising_members(s.to_set()) == s,
{
    s.unique_seq_to_set();
    vstd::seq_lib::seq_to_set_is_finite(s);
    assert(rising(s) && s.to_set() == s.to_set());
    lemma_rising_unique(rising_members(s.to_set()), s);
}

/// A list has as many members as entries exactly when no entry repeats.
pub proof fn lemma_distinct_count(s: Seq<u64>)
    ensures
        s.to_set().finite(),
        s.to_set().len() <= s.len(),
        s.to_set().len() == s.len() <==> s.no_duplicates(),
    decreases s.len(),
{
    vstd::seq_lib::seq_to_set_is_finite(s);
    if s.len() == 0 {
        assert(s.to_set() =~= Set::empty());
    } else {
        let t = s.drop_last();
        let v = s.last();
        lemma_distinct_count(t);
        assert(s.to_set() =~= t.to_set().insert(v)) by {
            assert forall|x: u64| s.contains(x) implies t.contains(x) || x == v by {
                let i = s.index_of(x);
                if i < t.len() {
                    assert(t[i] == x);
                }
            }
            assert forall|x: u64| t.contains(x) || x == v implies s.contains(x) by {
                if t.contains(x) {
                    let i = t.index_of(x);
                    assert(s[i] == x);
                } else {
                    assert(s[s.len() - 1] == x);
                }
            }
        }
        if t.contains(v) {
            let i = t.index_of(v);
            assert(s[i] == s[s.len() - 1]);
            assert(t.to_set().insert(v) =~= t.to_set());
        } else {
            if t.no_duplicates() {
                assert forall|i: int, j: int| 0 <= i < s.len() && 0 <= j < s.len() && i
                    != j implies s[i] != s[j] by {
                    if i < t.len() && j < t.len() {
                        assert(t[i] == s[i] && t[j] == s[j]);
                    } else if i < t.len() {
                        assert(t[i] == s[i]);
                    } else {
                        assert(t[j] == s[j]);
                    }
                }
            }
            if s.no_duplicates() {
                assert forall|i: int, j: int| 0 <= i < t.len() && 0 <= j < t.len() && i
                    != j implies t[i] != t[j] by {
                    assert(t[i] == s[i] && t[j] == s[j]);
                }
            }
        }
    }
}

/// Whether `ids` holds `id`.
pub fn holds(ids: &[u64], id: u64) -> (found: bool)
    ensures
        found == ids@.contains(id),
{
    let mut i: usize = 0;
    while i < ids.len()
        invariant
            i <= ids@.len(),
            forall|k: int| 0 <= k < i ==> ids@[k] != id,
        decreases ids@.len() - i,
    {
        if ids[i] == id {
            return true;
        }
        i += 1;
    }
    false
}

/// Put `id` into a rising list, once.
fn insert_rising(list: &mut Vec<u64>, id: u64)
    requires
        rising(old(list)@),
    ensures
        rising(final(list)@),
        final(list)@.to_set() == old(list)@.to_set().insert(id),
{
    let mut i: usize = 0;
    while i < list.len() && list[i] < id
        invariant
            list@ == old(list)@,
            rising(list@),
            i <= list@.len(),
            forall|k: int| 0 <= k < i ==> list@[k] < id,
        decreases list@.len() - i,
    {
        i += 1;
    }
    let ghost before = list@;
    if i < list.len() && list[i] == id {
        proof {
            assert(before.to_set().insert(id) =~= before.to_set()) by {
                assert(before[i as int] == id);
            }
        }
        return;
    }
    list.insert(i, id);
    proof {
        let after = list@;
        assert(after == before.insert(i as int, id));
        assert(after.to_set() =~= before.to_set().insert(id)) by {
            assert forall|x: u64| after.contains(x) implies before.contains(x) || x == id by {
                let k = after.index_of(x);
                if k < i {
                    assert(before[k] == x);
                } else if k > i {
                    assert(before[k - 1] == x);
                }
            }
            assert forall|x: u64| before.contains(x) || x == id implies after.contains(x) by {
                if before.contains(x) {
                    let k = before.index_of(x);
                    if k < i {
                        assert(after[k] == x);
                    } else {
                        assert(after[k + 1] == x);
                    }
                } else {
                    assert(after[i as int] == x);
                }
            }
        }
    }
}

/// The members of `ids`, each once, in rising order.
pub fn rising_ids(ids: &[u64]) -> (out: Vec<u64>)
    ensures
        rising(out@),
        out@.to_set() == ids@.to_set(),
        out@ == rising_members(ids@.to_set()),
        out@.len() == ids@.to_set().len(),
        out@.len() <= ids@.len(),
        out@.len() == ids@.len() <==> ids@.no_duplicates(),
{
    let mut out: Vec<u64> = Vec::new();
    let mut i: usize = 0;
    proof {
        assert(ids@.take(0).to_set() =~= out@.to_set());
    }
    while i < ids.len()
        invariant
            i <= ids@.len(),
            rising(out@),
            out@.to_set() == ids@.take(i as int).to_set(),
        decreases ids@.len() - i,
    {
        insert_rising(&mut out, ids[i]);
        proof {
            lemma_take_set(ids@, i as int);
        }
        i += 1;
    }
    proof {
        assert(ids@.take(i as int) =~= ids@);
        lemma_rising_set(out@);
        lemma_distinct_count(ids@);
    }
    out
}

proof fn lemma_take_set(s: Seq<u64>, i: int)
    requires
        0 <= i < s.len(),
    ensures
        s.take(i + 1).to_set() == s.take(i).to_set().insert(s[i]),
{
    let before = s.take(i);
    let after = s.take(i + 1);
    assert(after.to_set() =~= before.to_set().insert(s[i])) by {
        assert forall|x: u64| after.contains(x) implies before.contains(x) || x == s[i] by {
            let k = after.index_of(x);
            if k < i {
                assert(before[k] == x);
            }
        }
        assert forall|x: u64| before.contains(x) || x == s[i] implies after.contains(x) by {
            if before.contains(x) {
                let k = before.index_of(x);
                assert(after[k] == x);
            } else {
                assert(after[i] == x);
            }
        }
    }
}

/// Whether two lists have the same entries in the same order.
pub fn same_list(a: &[u64], b: &[u64]) -> (same: bool)
    ensures
        same == (a@ == b@),
{
    if a.len() != b.len() {
        return false;
    }
    let mut i: usize = 0;
    while i < a.len()
        invariant
            i <= a@.len(),
            a@.len() == b@.len(),
            forall|k: int| 0 <= k < i ==> a@[k] == b@[k],
        decreases a@.len() - i,
    {
        if a[i] != b[i] {
            return false;
        }
        i += 1;
    }
    assert(a@ =~= b@);
    true
}

/// Whether two lists have the same members, whatever their order.
pub fn same_members(a: &[u64], b: &[u64]) -> (same: bool)
    ensures
        same == (a@.to_set() == b@.to_set()),
{
    let x = rising_ids(a);
    let y = rising_ids(b);
    proof {
        if x@.to_set() == y@.to_set() {
            lemma_rising_unique(x@, y@);
        }
    }
    same_list(&x, &y)
}

/// The entries of a rising list that `other` does not hold, in rising order.
pub fn difference(list: &[u64], other: &[u64]) -> (out: Vec<u64>)
    requires
        rising(list@),
    ensures
        rising(out@),
        out@.to_set() == list@.to_set().difference(other@.to_set()),
        out@.len() == list@.to_set().difference(other@.to_set()).len(),
{
    let mut out: Vec<u64> = Vec::new();
    let mut i: usize = 0;
    proof {
        assert(list@.take(0).to_set().difference(other@.to_set()) =~= out@.to_set());
    }
    while i < list.len()
        invariant
            i <= list@.len(),
            rising(list@),
            rising(out@),
            forall|k: int| 0 <= k < out@.len() ==> i < list@.len() ==> out@[k] < list@[i as int],
            out@.to_set() == list@.take(i as int).to_set().difference(other@.to_set()),
        decreases list@.len() - i,
    {
        let id: u64 = list[i];
        let ghost before = out@;
        proof {
            lemma_take_set(list@, i as int);
        }
        if !holds(other, id) {
            out.push(id);
            proof {
                assert(out@.take(before.len() as int) =~= before);
                assert(out@.take((before.len() + 1) as int) =~= out@);
                lemma_take_set(out@, before.len() as int);
                assert(out@.to_set() =~= list@.take(i + 1).to_set().difference(other@.to_set()));
            }
        } else {
            proof {
                assert(out@.to_set() =~= list@.take(i + 1).to_set().difference(other@.to_set()));
            }
        }
        i += 1;
    }
    proof {
        assert(list@.take(i as int) =~= list@);
        lemma_rising_set(out@);
    }
    out
}

/// Whether a list has exactly the members of an ordered set.
pub fn matches_set(ids: &[u64], set: &BTreeSet<u64>) -> (same: bool)
    ensures
        same == (ids@.to_set() == set@),
{
    let list = rising_ids(ids);
    if list.len() != set.len() {
        return false;
    }
    let mut i: usize = 0;
    while i < list.len()
        invariant
            i <= list@.len(),
            list@.to_set() == ids@.to_set(),
            forall|k: int| 0 <= k < i ==> set@.contains(list@[k]),
        decreases list@.len() - i,
    {
        if !set.contains(&list[i]) {
            proof {
                assert(list@.to_set().contains(list@[i as int]));
            }
            return false;
        }
        i += 1;
    }
    proof {
        let s = list@.to_set();
        assert(s.subset_of(set@)) by {
            assert forall|x: u64| s.contains(x) implies set@.contains(x) by {
                let k = list@.index_of(x);
                assert(list@[k] == x);
            }
        }
        lemma_rising_set(list@);
        let members = vstd::std_specs::iter::IteratorSpec::remaining(
            &vstd::std_specs::btree::spec_btree_keys_iter(set),
        ).unref();
        vstd::seq_lib::seq_to_set_is_finite(members);
        vstd::set_lib::lemma_subset_equality(s, set@);
    }
    true
}

/// The position of the first entry above `v`.
pub open spec fn place_for(s: Seq<u64>, v: u64) -> int
    decreases s.len(),
{
    if s.len() == 0 {
        0
    } else if s[0] > v {
        0
    } else {
        1 + place_for(s.skip(1), v)
    }
}

/// The entries of a list in rising order, repeats kept.
pub open spec fn sorted(s: Seq<u64>) -> Seq<u64>
    decreases s.len(),
{
    if s.len() == 0 {
        s
    } else {
        let rest = sorted(s.drop_last());
        rest.insert(place_for(rest, s.last()), s.last())
    }
}

/// Whether no entry is above a later one.
pub open spec fn never_falls(s: Seq<u64>) -> bool {
    forall|i: int, j: int| 0 <= i < j < s.len() ==> s[i] <= s[j]
}

proof fn lemma_place(s: Seq<u64>, v: u64)
    ensures
        0 <= place_for(s, v) <= s.len(),
        forall|j: int| 0 <= j < place_for(s, v) ==> #[trigger] s[j] <= v,
        place_for(s, v) < s.len() ==> s[place_for(s, v)] > v,
    decreases s.len(),
{
    if s.len() > 0 && s[0] <= v {
        let t = s.skip(1);
        lemma_place(t, v);
        assert forall|j: int| 0 <= j < place_for(s, v) implies #[trigger] s[j] <= v by {
            if j > 0 {
                assert(t[j - 1] == s[j]);
            }
        }
        if place_for(t, v) < t.len() {
            assert(t[place_for(t, v)] == s[place_for(s, v)]);
        }
    }
}

proof fn lemma_place_is(s: Seq<u64>, v: u64, i: int)
    requires
        0 <= i <= s.len(),
        forall|j: int| 0 <= j < i ==> #[trigger] s[j] <= v,
        i < s.len() ==> s[i] > v,
    ensures
        place_for(s, v) == i,
{
    lemma_place(s, v);
    if place_for(s, v) < i {
        assert(s[place_for(s, v)] <= v);
    }
    if i < place_for(s, v) {
        assert(s[i] <= v);
    }
}

/// Sorting orders the entries and keeps each as often as it occurs.
pub proof fn lemma_sorted(s: Seq<u64>)
    ensures
        never_falls(sorted(s)),
        sorted(s).to_multiset() == s.to_multiset(),
        sorted(s).len() == s.len(),
        sorted(s).to_set() == s.to_set(),
    decreases s.len(),
{
    broadcast use vstd::seq_lib::group_to_multiset_ensures;

    if s.len() > 0 {
        let head = s.drop_last();
        let v = s.last();
        let rest = sorted(head);
        lemma_sorted(head);
        lemma_place(rest, v);
        let at = place_for(rest, v);
        let t = rest.insert(at, v);
        assert(t == sorted(s));
        assert forall|i: int, j: int| 0 <= i < j < t.len() implies t[i] <= t[j] by {
            let x = if i < at {
                i
            } else {
                i - 1
            };
            let y = if j < at {
                j
            } else {
                j - 1
            };
            if i != at && j != at {
                assert(t[i] == rest[x] && t[j] == rest[y]);
            } else if i == at {
                assert(t[j] == rest[y]);
                assert(rest[at] > v);
                if at < y {
                    assert(rest[at] <= rest[y]);
                }
            } else {
                assert(t[i] == rest[i]);
            }
        }
        vstd::seq_lib::to_multiset_insert(rest, at, v);
        assert(s =~= head.push(v));
        assert(head.push(v).to_multiset() =~= head.to_multiset().insert(v));
    } else {
        assert(sorted(s) =~= s);
    }
    let t = sorted(s);
    assert(t.to_set() =~= s.to_set()) by {
        assert forall|x: u64| t.contains(x) == s.contains(x) by {
            assert(t.contains(x) == (t.to_multiset().count(x) > 0));
            assert(s.contains(x) == (s.to_multiset().count(x) > 0));
        }
    }
}

/// Sorting a list without repeats gives its members in rising order.
pub proof fn lemma_sorted_distinct(s: Seq<u64>)
    requires
        s.no_duplicates(),
    ensures
        rising(sorted(s)),
        sorted(s) == rising_members(s.to_set()),
{
    let t = sorted(s);
    lemma_sorted(s);
    lemma_distinct_count(s);
    lemma_distinct_count(t);
    assert(t.no_duplicates());
    assert forall|i: int, j: int| 0 <= i < j < t.len() implies t[i] < t[j] by {
        assert(t[i] <= t[j]);
        assert(t[i] != t[j]);
    }
    lemma_rising_set(t);
}

/// A rising list is its own sorting.
pub proof fn lemma_sorted_rising(s: Seq<u64>)
    requires
        rising(s),
    ensures
        sorted(s) == s,
{
    lemma_rising_set(s);
    lemma_sorted_distinct(s);
}

/// The entries of a list in rising order, repeats kept.
pub fn sort_ids(ids: &[u64]) -> (out: Vec<u64>)
    ensures
        out@ == sorted(ids@),
{
    let mut out: Vec<u64> = Vec::new();
    let mut i: usize = 0;
    proof {
        assert(ids@.take(0) =~= Seq::<u64>::empty());
        assert(out@ =~= sorted(ids@.take(0)));
    }
    while i < ids.len()
        invariant
            i <= ids@.len(),
            out@ == sorted(ids@.take(i as int)),
        decreases ids@.len() - i,
    {
        let v: u64 = ids[i];
        let mut at: usize = 0;
        while at < out.len() && out[at] <= v
            invariant
                at <= out@.len(),
                forall|j: int| 0 <= j < at ==> #[trigger] out@[j] <= v,
            decreases out@.len() - at,
        {
            at += 1;
        }
        proof {
            lemma_place_is(out@, v, at as int);
            let next = ids@.take(i + 1);
            assert(next.drop_last() =~= ids@.take(i as int));
            assert(next.last() == v);
        }
        out.insert(at, v);
        i += 1;
    }
    proof {
        assert(ids@.take(i as int) =~= ids@);
    }
    out
}

/// A list without every entry equal to an id, the rest in order.
pub open spec fn without(s: Seq<u64>, id: u64) -> Seq<u64>
    decreases s.len(),
{
    if s.len() == 0 {
        Seq::empty()
    } else if s.last() == id {
        without(s.drop_last(), id)
    } else {
        without(s.drop_last(), id).push(s.last())
    }
}

/// A list without an id holds every other entry, and not the id.
pub proof fn lemma_without(s: Seq<u64>, id: u64)
    ensures
        forall|x: u64| #[trigger] without(s, id).contains(x) <==> s.contains(x) && x != id,
        without(s, id).len() <= s.len(),
        s.no_duplicates() ==> without(s, id).no_duplicates(),
    decreases s.len(),
{
    if s.len() > 0 {
        let head = s.drop_last();
        lemma_without(head, id);
        let out = without(s, id);
        let inner = without(head, id);
        assert forall|x: u64| #[trigger] out.contains(x) <==> s.contains(x) && x != id by {
            if s.contains(x) {
                let k = s.index_of(x);
                if k < head.len() {
                    assert(head[k] == x);
                }
            }
            if head.contains(x) {
                let k = head.index_of(x);
                assert(s[k] == x);
            }
            assert(inner.contains(x) <==> head.contains(x) && x != id);
            if s.last() != id {
                if inner.contains(x) {
                    let k = inner.index_of(x);
                    assert(out[k] == x);
                }
                if out.contains(x) {
                    let k = out.index_of(x);
                    if k < inner.len() {
                        assert(inner[k] == x);
                    }
                }
                if x == s.last() {
                    assert(out[inner.len() as int] == x);
                    assert(s[s.len() - 1] == x);
                }
            }
        }
        if s.no_duplicates() {
            assert(head.no_duplicates());
            if s.last() != id {
                assert(!head.contains(s.last())) by {
                    if head.contains(s.last()) {
                        let k = head.index_of(s.last());
                        assert(s[k] == s[s.len() - 1]);
                    }
                }
                assert(!inner.contains(s.last()));
                assert forall|i: int, j: int| 0 <= i < j < out.len() implies out[i] != out[j] by {
                    if j == inner.len() {
                        assert(inner.contains(inner[i]));
                    }
                }
            }
        }
    } else {
        assert forall|x: u64| #[trigger] without(s, id).contains(x) <==> s.contains(x) && x != id by {
        }
    }
}

/// Drop every entry equal to an id.
pub fn without_id(ids: &[u64], id: u64) -> (out: Vec<u64>)
    ensures
        out@ == without(ids@, id),
{
    let mut out: Vec<u64> = Vec::new();
    let mut i: usize = 0;
    assert(ids@.take(0) =~= Seq::<u64>::empty());
    while i < ids.len()
        invariant
            i <= ids@.len(),
            out@ == without(ids@.take(i as int), id),
        decreases ids@.len() - i,
    {
        proof {
            assert(ids@.take(i + 1).drop_last() =~= ids@.take(i as int));
            assert(ids@.take(i + 1).last() == ids@[i as int]);
        }
        if ids[i] != id {
            out.push(ids[i]);
        }
        i += 1;
    }
    assert(ids@.take(i as int) =~= ids@);
    out
}

/// A list extended by the entries of another that it does not hold yet, in
/// order, each once.
pub open spec fn merged<T>(s: Seq<T>, more: Seq<T>) -> Seq<T>
    decreases more.len(),
{
    if more.len() == 0 {
        s
    } else {
        let head = merged(s, more.drop_last());
        if head.contains(more.last()) {
            head
        } else {
            head.push(more.last())
        }
    }
}

/// A merged list begins with the first, holds what either held, and repeats
/// nothing that the first did not repeat.
pub proof fn lemma_merged<T>(s: Seq<T>, more: Seq<T>)
    ensures
        s.len() <= merged(s, more).len(),
        merged(s, more).take(s.len() as int) == s,
        forall|x: T|
            #[trigger] merged(s, more).contains(x) <==> s.contains(x) || more.contains(x),
        s.no_duplicates() ==> merged(s, more).no_duplicates(),
    decreases more.len(),
{
    if more.len() == 0 {
        assert(s.take(s.len() as int) =~= s);
    } else {
        let init = more.drop_last();
        let head = merged(s, init);
        let last = more.last();
        lemma_merged(s, init);
        let out = merged(s, more);
        assert forall|x: T| #[trigger] out.contains(x) <==> s.contains(x) || more.contains(x) by {
            assert(head.contains(x) <==> s.contains(x) || init.contains(x));
            if init.contains(x) {
                let k = init.index_of(x);
                assert(more[k] == x);
            }
            if more.contains(x) {
                let k = more.index_of(x);
                if k < init.len() {
                    assert(init[k] == x);
                }
            }
            assert(more[more.len() - 1] == last);
            if !head.contains(last) {
                if head.contains(x) {
                    let k = head.index_of(x);
                    assert(out[k] == x);
                }
                if out.contains(x) {
                    let k = out.index_of(x);
                    if k < head.len() {
                        assert(head[k] == x);
                    }
                }
                assert(out[head.len() as int] == last);
            }
        }
        if !head.contains(last) {
            assert(out.take(s.len() as int) =~= head.take(s.len() as int));
            if s.no_duplicates() {
                assert forall|i: int, j: int| 0 <= i < j < out.len() implies out[i] != out[j] by {
                    if j == head.len() {
                        assert(head.contains(head[i]));
                    }
                }
            }
        }
    }
}

/// Extend a list by what it does not hold yet.
pub fn merge_ids(list: &mut Vec<u64>, more: &[u64])
    ensures
        final(list)@ == merged(old(list)@, more@),
{
    let mut i: usize = 0;
    assert(more@.take(0) =~= Seq::<u64>::empty());
    while i < more.len()
        invariant
            i <= more@.len(),
            list@ == merged(old(list)@, more@.take(i as int)),
        decreases more@.len() - i,
    {
        proof {
            assert(more@.take(i + 1).drop_last() =~= more@.take(i as int));
            assert(more@.take(i + 1).last() == more@[i as int]);
        }
        if !holds(list, more[i]) {
            list.push(more[i]);
        }
        i += 1;
    }
    assert(more@.take(i as int) =~= more@);
}

} // verus!
