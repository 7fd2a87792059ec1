//! A group's state records as a map from keys to bytes.
use crate::assoc::{
    as_map, del, keys_distinct, lemma_del, lemma_del_map, lemma_put, lemma_put_map, lemma_slot_is,
    put, slot,
};
use crate::types::LogId;
use vstd::prelude::*;

verus! {

/// A change of one state record.
#[derive(Debug, Clone, PartialEq, Eq)]
pub enum StateMutation {
    Put { key: Vec<u8>, value: Vec<u8> },
    Delete { key: Vec<u8> },
}

#[verifier::ext_equal]
pub enum StateMutationView {
    Put { key: Seq<u8>, value: Seq<u8> },
    Delete { key: Seq<u8> },
}

impl View for StateMutation {
    type V = StateMutationView;

    open spec fn view(&self) -> StateMutationView {
        match self {
            StateMutation::Put { key, value } => StateMutationView::Put {
                key: key@,
                value: value@,
            },
            StateMutation::Delete { key } => StateMutationView::Delete { key: key@ },
        }
    }
}

/// A group's records: what each key holds.
pub type Records = Map<Seq<u8>, Seq<u8>>;

impl StateMutationView {
    pub open spec fn key(self) -> Seq<u8> {
        match self {
            StateMutationView::Put { key, .. } => key,
            StateMutationView::Delete { key } => key,
        }
    }

    /// The records after the change.
    pub open spec fn after(self, s: Records) -> Records {
        match self {
            StateMutationView::Put { key, value } => s.insert(key, value),
            StateMutationView::Delete { key } => s.remove(key),
        }
    }
}

/// The views of a list of changes.
pub open spec fn state_mutation_views(muts: Seq<StateMutation>) -> Seq<StateMutationView> {
    muts.map_values(|m: StateMutation| m@)
}

/// The records after a run of changes.
pub open spec fn after_changes(s: Records, muts: Seq<StateMutationView>) -> Records
    decreases muts.len(),
{
    if muts.len() == 0 {
        s
    } else {
        muts.last().after(after_changes(s, muts.drop_last()))
    }
}

/// Whether two byte strings are the same.
pub fn same_bytes(a: &[u8], b: &[u8]) -> (same: bool)
    ensures
        same == (a@ == b@),
{
    if a.len() != b.len() {
        return false;
    }
    let mut i: usize = 0;
    while i < a.len()
        invariant
            i <= a@.len(),
            a@.len() == b@.len(),
            forall|k: int| 0 <= k < i ==> a@[k] == b@[k],
        decreases a@.len() - i,
    {
        if a[i] != b[i] {
            return false;
        }
        i += 1;
    }
    assert(a@ =~= b@);
    true
}

/// A copy of a byte string.
pub fn copy_bytes(bytes: &[u8]) -> (out: Vec<u8>)
    ensures
        out@ == bytes@,
{
    let mut out: Vec<u8> = Vec::new();
    let mut i: usize = 0;
    while i < bytes.len()
        invariant
            i <= bytes@.len(),
            out@ == bytes@.take(i as int),
        decreases bytes@.len() - i,
    {
        out.push(bytes[i]);
        proof {
            assert(bytes@.take(i + 1) =~= bytes@.take(i as int).push(bytes@[i as int]));
        }
        i += 1;
    }
    proof {
        assert(bytes@.take(i as int) =~= bytes@);
    }
    out
}

/// A read seam over a group's records. The rules decide an entry from these
/// reads alone, so they serve the committed table and a batch layered over it
/// alike.
pub trait StateRead {
    /// Whether the source is in order.
    spec fn valid(&self) -> bool;

    /// What the source shows.
    spec fn records(&self) -> Records;

    fn read_state(&self, key: &[u8]) -> (r: Option<Vec<u8>>)
        requires
            self.valid(),
        ensures
            match r {
                Some(v) => self.records().contains_key(key@) && self.records()[key@] == v@,
                None => !self.records().contains_key(key@),
            },
    ;
}

/// A group's committed records, with the position they reflect.
pub struct StateTable {
    entries: Vec<(Vec<u8>, Vec<u8>)>,
    applied: Option<LogId>,
}

impl StateTable {
    pub closed spec fn listing(&self) -> Seq<(Seq<u8>, Seq<u8>)> {
        self.entries@.map_values(|e: (Vec<u8>, Vec<u8>)| (e.0@, e.1@))
    }

    /// The position that the records reflect.
    pub closed spec fn applied_at(&self) -> Option<LogId> {
        self.applied
    }

    pub fn new() -> (t: StateTable)
        ensures
            t.valid(),
            t.records() == Records::empty(),
            t.applied_at() is None,
    {
        let t = StateTable { entries: Vec::new(), applied: None };
        assert(t.listing() =~= Seq::<(Seq<u8>, Seq<u8>)>::empty());
        assert(t.records() =~= Records::empty());
        t
    }

    fn find(&self, key: &[u8]) -> (i: usize)
        ensures
            i == slot(self.listing(), key@),
            i <= self.entries@.len(),
    {
        let mut i: usize = 0;
        while i < self.entries.len() && !same_bytes(&self.entries[i].0, key)
            invariant
                i <= self.entries@.len(),
                forall|j: int| 0 <= j < i ==> (#[trigger] self.listing()[j]).0 != key@,
            decreases self.entries@.len() - i,
        {
            i += 1;
        }
        proof {
            lemma_slot_is(self.listing(), key@, i as int);
        }
        i
    }

    fn mutate(&mut self, m: &StateMutation)
        requires
            old(self).valid(),
        ensures
            final(self).valid(),
            final(self).records() == m@.after(old(self).records()),
            final(self).applied_at() == old(self).applied_at(),
    {
        let ghost before = self.listing();
        match m {
            StateMutation::Put { key, value } => {
                let i: usize = self.find(key);
                if i < self.entries.len() {
                    self.entries.set(i, (key.clone(), value.clone()));
                } else {
                    self.entries.push((key.clone(), value.clone()));
                }
                proof {
                    assert(self.listing() =~= put(before, key@, value@));
                    lemma_put(before, key@, value@);
                    lemma_put_map(before, key@, value@);
                }
            },
            StateMutation::Delete { key } => {
                let i: usize = self.find(key);
                if i < self.entries.len() {
                    self.entries.remove(i);
                }
                proof {
                    assert(self.listing() =~= del(before, key@));
                    lemma_del(before, key@);
                    lemma_del_map(before, key@);
                }
            },
        }
    }

    /// Make a run of changes.
    pub fn write_state(&mut self, muts: &Vec<StateMutation>)
        requires
            old(self).valid(),
        ensures
            final(self).valid(),
            final(self).records() == after_changes(
                old(self).records(),
                state_mutation_views(muts@),
            ),
            final(self).applied_at() == old(self).applied_at(),
    {
        let ghost views = state_mutation_views(muts@);
        let ghost before = self.records();
        let ghost position = self.applied_at();
        let mut i: usize = 0;
        proof {
            assert(views.take(0) =~= Seq::<StateMutationView>::empty());
        }
        while i < muts.len()
            invariant
                i <= muts@.len(),
                views == state_mutation_views(muts@),
                self.valid(),
                self.applied_at() == position,
                self.records() == after_changes(before, views.take(i as int)),
            decreases muts@.len() - i,
        {
            self.mutate(&muts[i]);
            proof {
                assert(views.take(i + 1).drop_last() =~= views.take(i as int));
                assert(views.take(i + 1).last() == views[i as int]);
            }
            i += 1;
        }
        proof {
            assert(views.take(i as int) =~= views);
        }
    }

    /// Make a run of changes and advance the applied position with them.
    pub fn apply_state(&mut self, muts: &Vec<StateMutation>, log_id: LogId)
        requires
            old(self).valid(),
        ensures
            final(self).valid(),
            final(self).records() == after_changes(
                old(self).records(),
                state_mutation_views(muts@),
            ),
            final(self).applied_at() == Some(log_id),
    {
        self.write_state(muts);
        self.applied = Some(log_id);
    }

    /// The position that the records reflect.
    pub fn last_applied(&self) -> (r: Option<LogId>)
        ensures
            r == self.applied_at(),
    {
        self.applied
    }

    /// Every record, each key once.
    pub fn scan(&self) -> (out: Vec<(Vec<u8>, Vec<u8>)>)
        requires
            self.valid(),
        ensures
            pairs_distinct(out@),
            pairs_map(out@) == self.records(),
    {
        let mut out: Vec<(Vec<u8>, Vec<u8>)> = Vec::new();
        let mut i: usize = 0;
        while i < self.entries.len()
            invariant
                i <= self.entries@.len(),
                out@.len() == i,
                forall|j: int|
                    0 <= j < i ==> (#[trigger] out@[j]).0@ == self.entries@[j].0@ && out@[j].1@
                        == self.entries@[j].1@,
            decreases self.entries@.len() - i,
        {
            out.push((self.entries[i].0.clone(), self.entries[i].1.clone()));
            i += 1;
        }
        proof {
            assert(pair_views(out@) =~= self.listing());
        }
        out
    }

    /// Replace the records by those of a snapshot; where a key occurs twice, the
    /// later pair counts.
    pub fn install(&mut self, pairs: &Vec<(Vec<u8>, Vec<u8>)>)
        ensures
            final(self).valid(),
            final(self).records() == after_changes(Records::empty(), pair_puts(pair_views(pairs@))),
            final(self).applied_at() == old(self).applied_at(),
    {
        let mut table = StateTable::new();
        let ghost puts = pair_puts(pair_views(pairs@));
        let mut i: usize = 0;
        proof {
            assert(puts.take(0) =~= Seq::<StateMutationView>::empty());
        }
        while i < pairs.len()
            invariant
                i <= pairs@.len(),
                puts == pair_puts(pair_views(pairs@)),
                table.valid(),
                table.records() == after_changes(Records::empty(), puts.take(i as int)),
            decreases pairs@.len() - i,
        {
            let put = StateMutation::Put { key: pairs[i].0.clone(), value: pairs[i].1.clone() };
            table.mutate(&put);
            proof {
                assert(puts.take(i + 1).drop_last() =~= puts.take(i as int));
                assert(puts.take(i + 1).last() == puts[i as int]);
            }
            i += 1;
        }
        proof {
            assert(puts.take(i as int) =~= puts);
        }
        self.entries = table.entries;
    }
}

/// The changes that store pairs in order.
pub open spec fn pair_puts(pairs: Seq<(Seq<u8>, Seq<u8>)>) -> Seq<StateMutationView> {
    pairs.map_values(|e: (Seq<u8>, Seq<u8>)| StateMutationView::Put { key: e.0, value: e.1 })
}

/// Storing pairs with distinct keys gives the map that they spell.
pub proof fn lemma_distinct_puts(pairs: Seq<(Seq<u8>, Seq<u8>)>)
    requires
        keys_distinct(pairs),
    ensures
        after_changes(Records::empty(), pair_puts(pairs)) == as_map(pairs),
    decreases pairs.len(),
{
    if pairs.len() == 0 {
        assert(pair_puts(pairs) =~= Seq::<StateMutationView>::empty());
        assert(as_map(pairs) =~= Records::empty());
    } else {
        let head = pairs.drop_last();
        let (k, v) = pairs.last();
        assert(keys_distinct(head)) by {
            assert forall|i: int, j: int| 0 <= i < j < head.len() implies #[trigger] head[i].0
                != #[trigger] head[j].0 by {
                assert(pairs[i].0 != pairs[j].0);
            }
        }
        lemma_distinct_puts(head);
        assert forall|j: int| 0 <= j < head.len() implies (#[trigger] head[j]).0 != k by {
            assert(pairs[j].0 != pairs[pairs.len() - 1].0);
        }
        lemma_slot_is(head, k, head.len() as int);
        assert(put(head, k, v) =~= pairs);
        lemma_put_map(head, k, v);
        assert(pair_puts(pairs).drop_last() =~= pair_puts(head));
        assert(pair_puts(pairs).last() == (StateMutationView::Put { key: k, value: v }));
    }
}

/// The contents of key and value pairs.
pub open spec fn pair_views(pairs: Seq<(Vec<u8>, Vec<u8>)>) -> Seq<(Seq<u8>, Seq<u8>)> {
    pairs.map_values(|e: (Vec<u8>, Vec<u8>)| (e.0@, e.1@))
}

/// Whether no key occurs twice.
pub open spec fn pairs_distinct(pairs: Seq<(Vec<u8>, Vec<u8>)>) -> bool {
    keys_distinct(pair_views(pairs))
}

/// The records that pairs spell.
pub open spec fn pairs_map(pairs: Seq<(Vec<u8>, Vec<u8>)>) -> Records {
    as_map(pair_views(pairs))
}

impl StateRead for StateTable {
    closed spec fn valid(&self) -> bool {
        keys_distinct(self.listing())
    }

    closed spec fn records(&self) -> Records {
        as_map(self.listing())
    }

    fn read_state(&self, key: &[u8]) -> (r: Option<Vec<u8>>) {
        let i: usize = self.find(key);
        if i < self.entries.len() {
            Some(self.entries[i].1.clone())
        } else {
            None
        }
    }
}

} // verus!
