//! Applying a group's committed entries, one by one or as one batch, and moving
//! its records as a snapshot.
use crate::assoc::{as_map, keys_distinct};
use crate::codec::{decode, encode, lemma_content_bytes, lemma_pairs_unique, Pair, Wire};
use crate::error::{error_view, Error};
use crate::partition::log_store::{durable_through, is_durable_through};
use crate::partition::state_machine::{
    entry_decision, key_at, op_digest, ApplyResult, DataStateMachine, EntryDecision, Found, KeyView,
    StateOverlay,
};
use crate::partition::table::{
    after_changes, lemma_distinct_puts, pair_puts, pair_views, Records, StateRead, StateTable,
};
use crate::partition::raft_types::RaftLogId;
use crate::partition::laws::{outcome_at, records_after};
use crate::types::{DataRequest, DataRequestView, GroupId, NodeId};
use vstd::prelude::*;

verus! {

/// A group's membership and the entry that set it.
#[derive(Debug, Clone, PartialEq, Eq)]
pub struct StoredMembership {
    pub log_id: Option<RaftLogId>,
    pub voters: Vec<NodeId>,
}

#[verifier::ext_equal]
pub struct MembershipView {
    pub log_id: Option<RaftLogId>,
    pub voters: Seq<NodeId>,
}

impl View for StoredMembership {
    type V = MembershipView;

    open spec fn view(&self) -> MembershipView {
        MembershipView { log_id: self.log_id, voters: self.voters@ }
    }
}

impl StoredMembership {
    pub fn duplicate(&self) -> (m: StoredMembership)
        ensures
            m@ == self@,
    {
        StoredMembership { log_id: self.log_id, voters: self.voters.clone() }
    }
}

/// What a committed entry carries.
#[derive(Debug, Clone, PartialEq, Eq)]
pub enum EntryPayload {
    Blank,
    Normal(DataRequest),
    Membership(Vec<NodeId>),
}

#[verifier::ext_equal]
pub enum PayloadView {
    Blank,
    Normal(DataRequestView),
    Membership(Seq<NodeId>),
}

/// A committed entry of the group's log.
#[derive(Debug, Clone, PartialEq, Eq)]
pub struct Entry {
    pub log_id: RaftLogId,
    pub payload: EntryPayload,
}

#[verifier::ext_equal]
pub struct EntryView {
    pub log_id: RaftLogId,
    pub payload: PayloadView,
}

impl View for Entry {
    type V = EntryView;

    open spec fn view(&self) -> EntryView {
        EntryView {
            log_id: self.log_id,
            payload: match self.payload {
                EntryPayload::Blank => PayloadView::Blank,
                EntryPayload::Normal(req) => PayloadView::Normal(req@),
                EntryPayload::Membership(voters) => PayloadView::Membership(voters@),
            },
        }
    }
}

/// The views of a list of entries.
pub open spec fn entry_log(entries: Seq<Entry>) -> Seq<EntryView> {
    entries.map_values(|e: Entry| e@)
}

/// Everything that applying an entry changes.
#[verifier::ext_equal]
pub struct GroupView {
    pub records: Records,
    pub applied: Option<RaftLogId>,
    /// The committed position, which is written together with the applied one.
    pub committed: Option<RaftLogId>,
    pub membership: MembershipView,
}

/// Apply one entry; nothing where a stored record cannot be read. An entry
/// without a command only advances the position, or sets the membership.
pub open spec fn apply_entry(s: GroupView, e: EntryView) -> Option<(GroupView, ApplyResult)> {
    match e.payload {
        PayloadView::Blank => Some(
            (
                GroupView { applied: Some(e.log_id), committed: Some(e.log_id), ..s },
                ApplyResult::NoOp,
            ),
        ),
        PayloadView::Membership(voters) => Some(
            (
                GroupView {
                    applied: Some(e.log_id),
                    committed: Some(e.log_id),
                    membership: MembershipView { log_id: Some(e.log_id), voters },
                    ..s
                },
                ApplyResult::NoOp,
            ),
        ),
        PayloadView::Normal(req) => match entry_decision(
            s.records,
            req,
            op_digest(req.op),
            e.log_id.index,
        ) {
            EntryDecision::Decided(result, muts) => Some(
                (
                    GroupView {
                        records: after_changes(s.records, muts),
                        applied: Some(e.log_id),
                        committed: Some(e.log_id),
                        ..s
                    },
                    result,
                ),
            ),
            EntryDecision::Failed => None,
        },
    }
}

/// Apply a run of entries, each on what the ones before it left.
pub open spec fn apply_run(s: GroupView, entries: Seq<EntryView>) -> Option<
    (GroupView, Seq<ApplyResult>),
>
    decreases entries.len(),
{
    if entries.len() == 0 {
        Some((s, Seq::empty()))
    } else {
        match apply_run(s, entries.drop_last()) {
            None => None,
            Some((t, results)) => match apply_entry(t, entries.last()) {
                None => None,
                Some((u, result)) => Some((u, results.push(result))),
            },
        }
    }
}

/// A run that fails on a part fails on the whole.
proof fn lemma_run_fails(s: GroupView, entries: Seq<EntryView>, n: int)
    requires
        0 <= n <= entries.len(),
        apply_run(s, entries.take(n)) is None,
    ensures
        apply_run(s, entries) is None,
    decreases entries.len() - n,
{
    if n == entries.len() {
        assert(entries.take(n) =~= entries);
    } else {
        assert(entries.take(n + 1).drop_last() =~= entries.take(n));
        lemma_run_fails(s, entries, n + 1);
    }
}

/// Two runs one after the other are one run.
pub proof fn law_runs_compose(s: GroupView, x: Seq<EntryView>, y: Seq<EntryView>)
    ensures
        apply_run(s, x + y) == match apply_run(s, x) {
            None => None,
            Some((t, first)) => match apply_run(t, y) {
                None => None,
                Some((u, second)) => Some((u, first + second)),
            },
        },
    decreases y.len(),
{
    if y.len() == 0 {
        assert(x + y =~= x);
        if let Some((t, first)) = apply_run(s, x) {
            assert(first + Seq::<ApplyResult>::empty() =~= first);
        }
    } else {
        law_runs_compose(s, x, y.drop_last());
        assert((x + y).drop_last() =~= x + y.drop_last());
        assert((x + y).last() == y.last());
        if let Some((t, first)) = apply_run(s, x) {
            if let Some((u, second)) = apply_run(t, y.drop_last()) {
                if let Some((v, result)) = apply_entry(u, y.last()) {
                    assert((first + second).push(result) =~= first + second.push(result));
                }
            }
        }
    }
}

/// A group's records at one applied position.
pub struct Snapshot {
    pub last_log_id: Option<RaftLogId>,
    pub last_membership: StoredMembership,
    pub snapshot_id: String,
    pub data: Vec<u8>,
}

/// The applier of one group's committed entries.
pub struct RocksStateMachine {
    storage: StateTable,
    data: DataStateMachine,
    applied: Option<RaftLogId>,
    committed: Option<RaftLogId>,
    membership: StoredMembership,
}

impl RocksStateMachine {
    pub closed spec fn state(&self) -> GroupView {
        GroupView {
            records: self.storage.records(),
            applied: self.applied,
            committed: self.committed,
            membership: self.membership@,
        }
    }

    pub closed spec fn valid(&self) -> bool {
        self.storage.valid()
    }

    /// An applier over a group's committed records.
    pub fn new(
        storage: StateTable,
        group: GroupId,
        applied: Option<RaftLogId>,
        committed: Option<RaftLogId>,
        membership: StoredMembership,
    ) -> (m: RocksStateMachine)
        requires
            storage.valid(),
        ensures
            m.valid(),
            m.state() == (GroupView {
                records: storage.records(),
                applied,
                committed,
                membership: membership@,
            }),
    {
        RocksStateMachine {
            storage,
            data: DataStateMachine::new(group),
            applied,
            committed,
            membership,
        }
    }

    /// The applied position with the membership it reflects.
    pub fn read_applied(&self) -> (r: (Option<RaftLogId>, StoredMembership))
        ensures
            r.0 == self.state().applied,
            r.1@ == self.state().membership,
    {
        (self.applied, self.membership.duplicate())
    }

    /// The committed position.
    pub fn read_committed(&self) -> (r: Option<RaftLogId>)
        ensures
            r == self.state().committed,
    {
        self.committed
    }

    /// The version and value of a key.
    pub fn get(&self, key: &[u8]) -> (r: Result<Option<(u64, Vec<u8>)>, Error>)
        requires
            self.valid(),
        ensures
            match r {
                Ok(None) => key_at(
                    self.state().records,
                    key@,
                ) is Absent,
                Ok(Some((version, value))) => key_at(
                    self.state().records,
                    key@,
                ) == Found::Present(
                    KeyView { version, value: value@ },
                ),
                Err(e) => key_at(
                    self.state().records,
                    key@,
                ) is Corrupt && e@ is Codec,
            },
    {
        self.data.get(&self.storage, key)
    }

    /// Decide every entry against the batch so far, then write the whole batch
    /// once. It gives what applying the entries one by one gives; where a record
    /// cannot be read, nothing is written.
    pub fn apply_coalesced(&mut self, entries: &Vec<Entry>) -> (r: Result<Vec<ApplyResult>, Error>)
        requires
            old(self).valid(),
        ensures
            final(self).valid(),
            match r {
                Ok(results) => apply_run(old(self).state(), entry_log(entries@)) == Some(
                    (final(self).state(), results@),
                ),
                Err(e) => apply_run(old(self).state(), entry_log(entries@)) is None
                    && final(self).state() == old(self).state() && e@ is Codec,
            },
    {
        let ghost log = entry_log(entries@);
        let ghost before = self.state();
        let mut overlay = StateOverlay::new(&self.storage);
        let mut results: Vec<ApplyResult> = Vec::new();
        let mut membership = self.membership.duplicate();
        let mut last: Option<RaftLogId> = self.applied;
        let mut committed: Option<RaftLogId> = self.committed;
        let mut i: usize = 0;
        proof {
            assert(log.take(0) =~= Seq::<EntryView>::empty());
            assert(results@ =~= Seq::<ApplyResult>::empty());
        }
        while i < entries.len()
            invariant
                i <= entries@.len(),
                log == entry_log(entries@),
                before == old(self).state(),
                *self == *old(self),
                self.valid(),
                overlay.valid(),
                overlay.base() == before.records,
                apply_run(before, log.take(i as int)) == Some(
                    (
                        GroupView {
                            records: overlay.records(),
                            applied: last,
                            committed,
                            membership: membership@,
                        },
                        results@,
                    ),
                ),
            decreases entries@.len() - i,
        {
            let entry = &entries[i];
            let ghost current = GroupView {
                records: overlay.records(),
                applied: last,
                committed,
                membership: membership@,
            };
            proof {
                assert(log.take(i + 1).drop_last() =~= log.take(i as int));
                assert(log.take(i + 1).last() == entry@);
            }
            match &entry.payload {
                EntryPayload::Blank => {
                    results.push(ApplyResult::NoOp);
                },
                EntryPayload::Membership(voters) => {
                    membership = StoredMembership {
                        log_id: Some(entry.log_id),
                        voters: voters.clone(),
                    };
                    results.push(ApplyResult::NoOp);
                },
                EntryPayload::Normal(req) => {
                    match self.data.evaluate(&overlay, req, entry.log_id.index) {
                        Ok((result, muts)) => {
                            overlay.stage(&muts);
                            results.push(result);
                        },
                        Err(e) => {
                            proof {
                                assert(apply_run(before, log.take(i + 1)) is None);
                                lemma_run_fails(before, log, i + 1);
                            }
                            return Err(e);
                        },
                    }
                },
            }
            last = Some(entry.log_id);
            committed = last;
            i += 1;
        }
        proof {
            assert(log.take(i as int) =~= log);
        }
        let ghost target = GroupView {
            records: overlay.records(),
            applied: last,
            committed,
            membership: membership@,
        };
        let mutations = overlay.into_mutations();
        self.storage.write_state(&mutations);
        self.applied = last;
        self.committed = committed;
        self.membership = membership;
        proof {
            assert(self.state() =~= target);
        }
        Ok(results)
    }

    /// Write each entry by itself. Where a record cannot be read, the entries
    /// before it stay applied.
    pub fn apply_per_entry(&mut self, entries: &Vec<Entry>) -> (r: Result<Vec<ApplyResult>, Error>)
        requires
            old(self).valid(),
        ensures
            final(self).valid(),
            match r {
                Ok(results) => apply_run(old(self).state(), entry_log(entries@)) == Some(
                    (final(self).state(), results@),
                ),
                Err(e) => e@ is Codec && exists|n: int|
                    0 <= n < entries@.len() && (#[trigger] apply_run(
                        old(self).state(),
                        entry_log(entries@).take(n),
                    ) matches Some((t, _)) && t == final(self).state()) && apply_run(
                        old(self).state(),
                        entry_log(entries@).take(n + 1),
                    ) is None,
            },
    {
        let ghost log = entry_log(entries@);
        let ghost before = self.state();
        let mut results: Vec<ApplyResult> = Vec::new();
        let mut i: usize = 0;
        proof {
            assert(log.take(0) =~= Seq::<EntryView>::empty());
            assert(results@ =~= Seq::<ApplyResult>::empty());
        }
        while i < entries.len()
            invariant
                i <= entries@.len(),
                log == entry_log(entries@),
                before == old(self).state(),
                self.valid(),
                apply_run(before, log.take(i as int)) == Some((self.state(), results@)),
            decreases entries@.len() - i,
        {
            let entry = &entries[i];
            proof {
                assert(log.take(i + 1).drop_last() =~= log.take(i as int));
                assert(log.take(i + 1).last() == entry@);
            }
            match &entry.payload {
                EntryPayload::Blank => {
                    results.push(ApplyResult::NoOp);
                },
                EntryPayload::Membership(voters) => {
                    self.membership = StoredMembership {
                        log_id: Some(entry.log_id),
                        voters: voters.clone(),
                    };
                    results.push(ApplyResult::NoOp);
                },
                EntryPayload::Normal(req) => {
                    match self.data.evaluate(&self.storage, req, entry.log_id.index) {
                        Ok((result, muts)) => {
                            self.storage.write_state(&muts);
                            results.push(result);
                        },
                        Err(e) => {
                            proof {
                                assert(apply_run(before, log.take(i + 1)) is None);
                            }
                            return Err(e);
                        },
                    }
                },
            }
            self.applied = Some(entry.log_id);
            self.committed = self.applied;
            i += 1;
        }
        proof {
            assert(log.take(i as int) =~= log);
        }
        Ok(results)
    }

    /// Apply a batch, in one write or entry by entry. Both ways give the same
    /// results and leave the same state; they differ only in what stays where a
    /// record cannot be read.
    pub fn apply(&mut self, entries: &Vec<Entry>, coalesce: bool) -> (r: Result<
        Vec<ApplyResult>,
        Error,
    >)
        requires
            old(self).valid(),
        ensures
            final(self).valid(),
            match r {
                Ok(results) => apply_run(old(self).state(), entry_log(entries@)) == Some(
                    (final(self).state(), results@),
                ),
                Err(e) => e@ is Codec && if coalesce {
                    apply_run(old(self).state(), entry_log(entries@)) is None
                        && final(self).state() == old(self).state()
                } else {
                    exists|n: int|
                        0 <= n < entries@.len() && (#[trigger] apply_run(
                            old(self).state(),
                            entry_log(entries@).take(n),
                        ) matches Some((t, _)) && t == final(self).state()) && apply_run(
                            old(self).state(),
                            entry_log(entries@).take(n + 1),
                        ) is None
                },
            },
    {
        if coalesce {
            self.apply_coalesced(entries)
        } else {
            self.apply_per_entry(entries)
        }
    }

    /// The records in serialized form, with the position and membership that
    /// they reflect and a name for them. A snapshot waits until the state up to its
    /// position is durable: there is none before.
    pub fn build_snapshot(&self, durable: Option<RaftLogId>) -> (r: Option<Snapshot>)
        requires
            self.valid(),
        ensures
            match r {
                Some(s) => may_snapshot(durable, self.state().applied) && snapshots(
                    s,
                    self.state(),
                ),
                None => !may_snapshot(durable, self.state().applied),
            },
    {
        if let Some(applied) = self.applied {
            if !is_durable_through(durable, applied) {
                return None;
            }
        }
        let pairs = self.storage.scan();
        Some(snapshot_of(&pairs, self.applied, &self.membership))
    }

    /// The current snapshot; a group that has applied nothing has none.
    pub fn get_current_snapshot(&self, durable: Option<RaftLogId>) -> (r: CurrentSnapshot)
        requires
            self.valid(),
        ensures
            match r {
                CurrentSnapshot::Empty => self.state().applied is None,
                CurrentSnapshot::Wait => self.state().applied is Some && !may_snapshot(
                    durable,
                    self.state().applied,
                ),
                CurrentSnapshot::Taken(s) => self.state().applied is Some && may_snapshot(
                    durable,
                    self.state().applied,
                ) && snapshots(s, self.state()),
            },
    {
        if self.applied.is_none() {
            return CurrentSnapshot::Empty;
        }
        match self.build_snapshot(durable) {
            Some(s) => CurrentSnapshot::Taken(s),
            None => CurrentSnapshot::Wait,
        }
    }

    /// Replace the records by those of a snapshot. Where it cannot be read, or the
    /// storage does not take it, change nothing; `refusal` holds why it does not.
    pub fn install_snapshot(
        &mut self,
        refusal: Option<&Error>,
        last_log_id: Option<RaftLogId>,
        membership: StoredMembership,
        bytes: &[u8],
    ) -> (r: Result<(), Error>)
        requires
            old(self).valid(),
        ensures
            final(self).valid(),
            match r {
                Ok(_) => {
                    &&& refusal is None
                    &&& snapshot_records(bytes@) is Some
                    &&& final(self).state() == (GroupView {
                        records: snapshot_records(bytes@)->0,
                        applied: last_log_id,
                        membership: membership@,
                        ..old(self).state()
                    })
                },
                Err(e) => final(self).state() == old(self).state() && if snapshot_records(
                    bytes@,
                ) is None {
                    e@ is Codec
                } else {
                    error_view(refusal) == Some(e@)
                },
            },
    {
        match snapshot_rows(bytes) {
            Ok(pairs) => {
                if let Some(e) = refusal {
                    return Err(e.duplicate());
                }
                self.storage.install(&pairs);
                self.applied = last_log_id;
                self.membership = membership;
                Ok(())
            },
            Err(e) => Err(e),
        }
    }
}

/// What asking for the current snapshot gives.
pub enum CurrentSnapshot {
    /// Nothing was applied yet.
    Empty,
    /// Ask again once the state is durable.
    Wait,
    Taken(Snapshot),
}

/// Whether a snapshot may go out: the state that it holds is durable.
pub open spec fn may_snapshot(durable: Option<RaftLogId>, applied: Option<RaftLogId>) -> bool {
    applied matches Some(l) ==> durable_through(durable, l)
}

/// Whether a snapshot holds a group's state.
pub open spec fn snapshots(s: Snapshot, state: GroupView) -> bool {
    &&& s.last_log_id == state.applied
    &&& s.last_membership@ == state.membership
    &&& s.snapshot_id@ == snapshot_name(state.applied)
    &&& snapshot_records(s.data@) == Some(state.records)
}

/// A snapshot reaches no further than the durable state: whoever installs it holds
/// nothing that its source could still lose.
pub proof fn law_snapshots_hold_durable_state(
    s: Snapshot,
    state: GroupView,
    durable: Option<RaftLogId>,
)
    requires
        may_snapshot(durable, state.applied),
        snapshots(s, state),
    ensures
        s.last_log_id matches Some(l) ==> durable matches Some(d) && l.index <= d.index,
{
}

/// The name of a snapshot: the position that it reflects.
pub open spec fn snapshot_name(applied: Option<RaftLogId>) -> Seq<char> {
    match applied {
        Some(l) => l.spec_text(),
        None => "empty"@,
    }
}

/// A snapshot of a group's rows at an applied position.
pub fn snapshot_of(
    rows: &Vec<(Vec<u8>, Vec<u8>)>,
    applied: Option<RaftLogId>,
    membership: &StoredMembership,
) -> (s: Snapshot)
    ensures
        s.last_log_id == applied,
        s.last_membership@ == membership@,
        s.snapshot_id@ == snapshot_name(applied),
        s.data@ == <Vec<Pair> as Wire>::wire(pair_views(rows@)),
        keys_distinct(pair_views(rows@)) ==> snapshot_records(s.data@) == Some(
            as_map(pair_views(rows@)),
        ),
{
    let data = encode(rows);
    proof {
        lemma_pairs_content(*rows);
        lemma_pairs_fit(*rows);
        if keys_distinct(pair_views(rows@)) {
            law_snapshot_round_trip(pair_views(rows@));
        }
    }
    let snapshot_id = match applied {
        Some(l) => l.to_text(),
        None => "empty".to_owned(),
    };
    Snapshot { last_log_id: applied, last_membership: membership.duplicate(), snapshot_id, data }
}

/// The rows that a serialized snapshot holds.
pub fn snapshot_rows(bytes: &[u8]) -> (r: Result<Vec<(Vec<u8>, Vec<u8>)>, Error>)
    ensures
        match r {
            Ok(rows) => {
                &&& <Vec<Pair> as Wire>::wire(pair_views(rows@)).is_prefix_of(bytes@)
                &&& snapshot_records(bytes@) == Some(
                    after_changes(Records::empty(), pair_puts(pair_views(rows@))),
                )
            },
            Err(e) => snapshot_records(bytes@) is None && e@ is Codec,
        },
{
    match decode::<Vec<(Vec<u8>, Vec<u8>)>>(bytes) {
        Ok(rows) => {
            proof {
                lemma_pairs_content(rows);
                lemma_snapshot_is(rows.content(), bytes@);
            }
            Ok(rows)
        },
        Err(e) => Err(e),
    }
}

/// The records that a serialized snapshot holds, if it can be read.
pub open spec fn snapshot_records(bytes: Seq<u8>) -> Option<Records> {
    if exists|pairs: Seq<(Seq<u8>, Seq<u8>)>|
        <Vec<Pair> as Wire>::fits(pairs) && (#[trigger] <Vec<Pair> as Wire>::wire(
            pairs,
        )).is_prefix_of(bytes) {
        Some(
            after_changes(
                Records::empty(),
                pair_puts(
                    choose|pairs: Seq<(Seq<u8>, Seq<u8>)>|
                        <Vec<Pair> as Wire>::fits(pairs) && (#[trigger] <Vec<Pair> as Wire>::wire(
                            pairs,
                        )).is_prefix_of(bytes),
                ),
            ),
        )
    } else {
        None
    }
}

proof fn lemma_snapshot_is(pairs: Seq<(Seq<u8>, Seq<u8>)>, bytes: Seq<u8>)
    requires
        <Vec<Pair> as Wire>::fits(pairs),
        <Vec<Pair> as Wire>::wire(pairs).is_prefix_of(bytes),
    ensures
        snapshot_records(bytes) == Some(after_changes(Records::empty(), pair_puts(pairs))),
{
    let found = choose|p: Seq<(Seq<u8>, Seq<u8>)>|
        <Vec<Pair> as Wire>::fits(p) && (#[trigger] <Vec<Pair> as Wire>::wire(p)).is_prefix_of(
            bytes,
        );
    lemma_pairs_unique(pairs, found, bytes);
}

/// A snapshot gives back the records that it was made from.
pub proof fn law_snapshot_round_trip(pairs: Seq<(Seq<u8>, Seq<u8>)>)
    requires
        keys_distinct(pairs),
        <Vec<Pair> as Wire>::fits(pairs),
    ensures
        snapshot_records(<Vec<Pair> as Wire>::wire(pairs)) == Some(as_map(pairs)),
{
    let bytes = <Vec<Pair> as Wire>::wire(pairs);
    assert(bytes.subrange(0, bytes.len() as int) =~= bytes);
    lemma_snapshot_is(pairs, bytes);
    lemma_distinct_puts(pairs);
}

proof fn lemma_pairs_content(pairs: Vec<(Vec<u8>, Vec<u8>)>)
    ensures
        pairs.content() == pair_views(pairs@),
{
    assert forall|i: int| 0 <= i < pairs@.len() implies #[trigger] pairs.content()[i]
        == pair_views(pairs@)[i] by {
        lemma_content_bytes(pairs@[i].0);
        lemma_content_bytes(pairs@[i].1);
    }
    assert(pairs.content() =~= pair_views(pairs@));
}

proof fn lemma_pairs_fit(pairs: Vec<(Vec<u8>, Vec<u8>)>)
    ensures
        <Vec<Pair> as Wire>::fits(pairs.content()),
{
    lemma_pairs_content(pairs);
    assert(pairs@.len() == pairs.len());
    assert forall|i: int| 0 <= i < pairs.content().len() implies <Pair as Wire>::fits(
        #[trigger] pairs.content()[i],
    ) by {
        assert(pairs@[i].0@.len() == pairs@[i].0.len());
        assert(pairs@[i].1@.len() == pairs@[i].1.len());
    }
}

/// An applied entry is the last one applied and committed. Only a membership entry
/// changes the membership, to its own voters at its own position; only a command
/// changes the records, as the rules say at its log index, and only a command has
/// a result. An entry fails only where a record it needs cannot be read.
pub proof fn law_entries_take_effect(s: GroupView, e: EntryView)
    ensures
        ({
            let done = apply_entry(s, e);
            &&& done is None <==> (e.payload matches PayloadView::Normal(req) && outcome_at(
                s.records,
                req,
                e.log_id.index,
            ) is None)
            &&& done matches Some((t, result)) ==> {
                &&& t.applied == Some(e.log_id)
                &&& t.committed == Some(e.log_id)
                &&& match e.payload {
                    PayloadView::Blank => t.records == s.records && t.membership == s.membership
                        && result == ApplyResult::NoOp,
                    PayloadView::Membership(voters) => t.records == s.records
                        && t.membership.voters == voters && t.membership.log_id == Some(e.log_id)
                        && result == ApplyResult::NoOp,
                    PayloadView::Normal(req) => t.records == records_after(
                        s.records,
                        req,
                        e.log_id.index,
                    ) && t.membership == s.membership && outcome_at(
                        s.records,
                        req,
                        e.log_id.index,
                    ) == Some(result),
                }
            }
        }),
{
}

/// A run of entries gives one result for each, and leaves the last one applied and
/// committed; an empty run changes nothing.
pub proof fn law_runs_answer_every_entry(s: GroupView, entries: Seq<EntryView>)
    ensures
        apply_run(s, entries) matches Some((t, results)) ==> {
            &&& results.len() == entries.len()
            &&& entries.len() == 0 ==> t == s
            &&& entries.len() > 0 ==> t.applied == Some(entries.last().log_id) && t.committed
                == Some(entries.last().log_id)
        },
    decreases entries.len(),
{
    if entries.len() > 0 {
        law_runs_answer_every_entry(s, entries.drop_last());
        if let Some((t, _)) = apply_run(s, entries.drop_last()) {
            law_entries_take_effect(t, entries.last());
        }
    }
}

/// A snapshot may be taken if and only if everything applied is durable: nothing
/// applied, or a durable position at or beyond it.
pub proof fn law_snapshots_wait_for_durability(
    durable: Option<RaftLogId>,
    applied: Option<RaftLogId>,
)
    ensures
        may_snapshot(durable, applied) <==> applied is None || (durable is Some && applied->0.index
            <= durable->0.index),
{
}

/// A snapshot is of exactly the state it was taken from: its position, its membership
/// and its records.
pub proof fn law_snapshots_are_of_their_state(s: Snapshot, state: GroupView, other: GroupView)
    requires
        snapshots(s, state),
    ensures
        s.last_log_id == state.applied,
        s.last_membership@ == state.membership,
        snapshot_records(s.data@) == Some(state.records),
        snapshots(s, other) ==> other.applied == state.applied && other.membership
            == state.membership && other.records == state.records,
{
}

} // verus!
