//! A value per node.
use crate::assoc::{
    as_map, del, keys_distinct, lemma_del, lemma_del_map, lemma_put, lemma_put_map, lemma_slot,
    lemma_slot_is, put, slot,
};
use crate::sets::{holds, lemma_distinct_count};
use crate::types::NodeId;
use vstd::prelude::*;

verus! {

/// A table that holds one small value per node.
pub struct NodeTable<V> {
    entries: Vec<(NodeId, V)>,
}

impl<V> View for NodeTable<V> {
    type V = Map<NodeId, V>;

    closed spec fn view(&self) -> Map<NodeId, V> {
        as_map(self.entries@)
    }
}

/// A map without the keys outside a list.
pub open spec fn kept<V>(m: Map<NodeId, V>, ids: Seq<NodeId>) -> Map<NodeId, V> {
    m.restrict(Set::new(|k: NodeId| ids.contains(k)))
}

/// A map's value under a key, if it has one.
pub open spec fn value_of<V>(m: Map<NodeId, V>, k: NodeId) -> Option<V> {
    if m.contains_key(k) {
        Some(m[k])
    } else {
        None
    }
}

/// The keys of an association list count as many as its entries.
proof fn lemma_count<V>(s: Seq<(NodeId, V)>)
    requires
        keys_distinct(s),
    ensures
        as_map(s).dom().finite(),
        as_map(s).len() == s.len(),
{
    let keys = s.map_values(|e: (NodeId, V)| e.0);
    assert forall|i: int, j: int| 0 <= i < j < keys.len() implies #[trigger] keys[i]
        != #[trigger] keys[j] by {
        assert(s[i].0 != s[j].0);
    }
    lemma_distinct_count(keys);
    assert(keys.no_duplicates());
    keys.unique_seq_to_set();
    assert forall|k: NodeId| #[trigger] as_map(s).contains_key(k) <==> keys.to_set().contains(k) by {
        lemma_slot(s, k);
        if keys.to_set().contains(k) {
            let i = choose|i: int| 0 <= i < keys.len() && keys[i] == k;
            assert(s[i].0 == k);
        }
        if as_map(s).contains_key(k) {
            assert(keys[slot(s, k)] == k);
        }
    }
    assert(as_map(s).dom() =~= keys.to_set());
}

impl<V: Copy> NodeTable<V> {
    pub closed spec fn valid(&self) -> bool {
        keys_distinct(self.entries@)
    }

    /// A table holds finitely many nodes.
    pub proof fn lemma_finite(&self)
        requires
            self.valid(),
        ensures
            self@.dom().finite(),
    {
        lemma_count(self.entries@);
    }

    pub fn new() -> (t: NodeTable<V>)
        ensures
            t.valid(),
            t@ == Map::<NodeId, V>::empty(),
    {
        let t: NodeTable<V> = NodeTable { entries: Vec::new() };
        assert(t@ =~= Map::<NodeId, V>::empty());
        t
    }

    pub fn count(&self) -> (n: usize)
        requires
            self.valid(),
        ensures
            n == self@.len(),
            self@.dom().finite(),
    {
        proof {
            lemma_count(self.entries@);
        }
        self.entries.len()
    }

    fn find(&self, node: NodeId) -> (i: usize)
        ensures
            i == slot(self.entries@, node),
            i <= self.entries@.len(),
    {
        let mut i: usize = 0;
        while i < self.entries.len() && self.entries[i].0 != node
            invariant
                i <= self.entries@.len(),
                forall|j: int| 0 <= j < i ==> (#[trigger] self.entries@[j]).0 != node,
            decreases self.entries@.len() - i,
        {
            i += 1;
        }
        proof {
            lemma_slot_is(self.entries@, node, i as int);
        }
        i
    }

    pub fn lookup(&self, node: NodeId) -> (r: Option<V>)
        ensures
            r == value_of(self@, node),
    {
        let i: usize = self.find(node);
        proof {
            lemma_slot(self.entries@, node);
        }
        if i < self.entries.len() {
            Some(self.entries[i].1)
        } else {
            None
        }
    }

    pub fn insert(&mut self, node: NodeId, value: V)
        requires
            old(self).valid(),
        ensures
            final(self).valid(),
            final(self)@ == old(self)@.insert(node, value),
    {
        let ghost before = self.entries@;
        let i: usize = self.find(node);
        if i < self.entries.len() {
            self.entries.set(i, (node, value));
        } else {
            self.entries.push((node, value));
        }
        proof {
            assert(self.entries@ =~= put(before, node, value));
            lemma_put(before, node, value);
            lemma_put_map(before, node, value);
        }
    }

    pub fn remove(&mut self, node: NodeId)
        requires
            old(self).valid(),
        ensures
            final(self).valid(),
            final(self)@ == old(self)@.remove(node),
    {
        let ghost before = self.entries@;
        let i: usize = self.find(node);
        if i < self.entries.len() {
            self.entries.remove(i);
        }
        proof {
            assert(self.entries@ =~= del(before, node));
            lemma_del(before, node);
            lemma_del_map(before, node);
        }
    }

    /// Drop every node that a list does not name.
    pub fn retain(&mut self, ids: &[NodeId])
        requires
            old(self).valid(),
        ensures
            final(self).valid(),
            final(self)@ == kept(old(self)@, ids@),
    {
        let mut fresh: NodeTable<V> = NodeTable::new();
        let ghost source = self.entries@;
        let mut i: usize = 0;
        proof {
            assert(source.take(0) =~= Seq::<(NodeId, V)>::empty());
            assert(as_map(source.take(0)) =~= Map::<NodeId, V>::empty());
            assert(kept(as_map(source.take(0)), ids@) =~= Map::<NodeId, V>::empty());
        }
        while i < self.entries.len()
            invariant
                i <= self.entries@.len(),
                source == self.entries@,
                keys_distinct(source),
                fresh.valid(),
                fresh@ == kept(as_map(source.take(i as int)), ids@),
            decreases self.entries@.len() - i,
        {
            let entry: (NodeId, V) = self.entries[i];
            proof {
                let head = source.take(i as int);
                assert forall|j: int| 0 <= j < head.len() implies (#[trigger] head[j]).0 != entry.0 by {
                    assert(source[j].0 != source[i as int].0);
                }
                lemma_slot_is(head, entry.0, i as int);
                assert(put(head, entry.0, entry.1) =~= source.take(i + 1));
                lemma_put_map(head, entry.0, entry.1);
            }
            if holds(ids, entry.0) {
                fresh.insert(entry.0, entry.1);
            }
            assert(fresh@ =~= kept(as_map(source.take(i + 1)), ids@));
            i += 1;
        }
        assert(source.take(i as int) =~= source);
        self.entries = fresh.entries;
    }
}

/// What is kept of a table is exactly its entries of the listed nodes.
pub proof fn law_kept_entries<V>(m: Map<NodeId, V>, ids: Seq<NodeId>, k: NodeId)
    ensures
        value_of(kept(m, ids), k) == if ids.contains(k) {
            value_of(m, k)
        } else {
            None
        },
        value_of(m, k) is Some <==> m.contains_key(k),
        m.contains_key(k) ==> value_of(m, k) == Some(m[k]),
{
}

} // verus!
