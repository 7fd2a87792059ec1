//! Applying the meta group's committed entries.
use crate::error::{Error, ErrorView};
use crate::meta::outcomes::{answer, meta_after};
use crate::meta::state::{
    after_all, law_records_round_trip, mutation_views, MetaMutation, MetaState, MetaView,
    MutationView,
};
use crate::meta::state_machine::{decide, Decision, MetaApplyResult, MetaStateMachine, ResultView};
use crate::partition::raft_types::RaftLogId;
use crate::assoc::{as_map, keys_distinct};
use crate::codec::{Pair, Wire};
use crate::partition::sm::{
    snapshot_name, snapshot_of, snapshot_records, MembershipView, Snapshot, StoredMembership,
};
use crate::partition::table::pair_views;
use crate::storage::{Storage, StorageView};
use crate::types::{LogId, MetaCommand, MetaCommandView, NodeId};
use vstd::prelude::*;

verus! {

/// What a committed entry of the meta group carries.
#[derive(Debug, Clone, PartialEq, Eq)]
pub enum MetaPayload {
    Blank,
    Normal(MetaCommand),
    Membership(Vec<NodeId>),
}

/// The content of a meta entry.
#[verifier::ext_equal]
pub enum MetaPayloadView {
    Blank,
    Normal(MetaCommandView),
    Membership(Seq<NodeId>),
}

/// A committed entry of the meta group's log.
#[derive(Debug, Clone, PartialEq, Eq)]
pub struct MetaEntry {
    pub log_id: RaftLogId,
    pub payload: MetaPayload,
}

#[verifier::ext_equal]
pub struct MetaEntryView {
    pub log_id: RaftLogId,
    pub payload: MetaPayloadView,
}

impl View for MetaEntry {
    type V = MetaEntryView;

    open spec fn view(&self) -> MetaEntryView {
        MetaEntryView {
            log_id: self.log_id,
            payload: match self.payload {
                MetaPayload::Blank => MetaPayloadView::Blank,
                MetaPayload::Normal(cmd) => MetaPayloadView::Normal(cmd@),
                MetaPayload::Membership(voters) => MetaPayloadView::Membership(voters@),
            },
        }
    }
}

/// The contents of entries.
pub open spec fn meta_log(entries: Seq<MetaEntry>) -> Seq<MetaEntryView> {
    entries.map_values(|e: MetaEntry| e@)
}

/// The contents of results.
pub open spec fn result_views(results: Seq<MetaApplyResult>) -> Seq<ResultView> {
    results.map_values(|r: MetaApplyResult| r@)
}

/// Everything that applying a meta entry changes.
#[verifier::ext_equal]
pub struct MetaGroupView {
    pub storage: StorageView,
    pub applied: Option<RaftLogId>,
    pub membership: MembershipView,
}

/// Apply one entry: the state it leaves with its result, or the failure. An
/// entry without a command only advances the position, or sets the membership.
pub open spec fn apply_meta_entry(s: MetaGroupView, e: MetaEntryView) -> Result<
    (MetaGroupView, ResultView),
    ErrorView,
> {
    match e.payload {
        MetaPayloadView::Blank => Ok(
            (MetaGroupView { applied: Some(e.log_id), ..s }, ResultView::NoOp),
        ),
        MetaPayloadView::Membership(voters) => Ok(
            (
                MetaGroupView {
                    applied: Some(e.log_id),
                    membership: MembershipView { log_id: Some(e.log_id), voters },
                    ..s
                },
                ResultView::NoOp,
            ),
        ),
        MetaPayloadView::Normal(cmd) => match decide(
            s.storage,
            cmd,
            LogId { term: e.log_id.term, index: e.log_id.index },
        ) {
            Decision::Decided(result, muts) => Ok(
                (
                    MetaGroupView {
                        storage: StorageView { meta: after_all(s.storage.meta, muts), ..s.storage },
                        applied: Some(e.log_id),
                        ..s
                    },
                    result,
                ),
            ),
            Decision::Failed(error) => Err(error),
        },
    }
}

/// Apply the first entries of a run, each on what the ones before it left; the
/// state they leave, their results, and the failure that ended the run.
pub open spec fn apply_meta_first(s: MetaGroupView, entries: Seq<MetaEntryView>, n: int) -> (
    MetaGroupView,
    Seq<ResultView>,
    Option<ErrorView>,
)
    decreases n,
{
    if n <= 0 {
        (s, Seq::empty(), None)
    } else {
        let (t, results, failure) = apply_meta_first(s, entries, n - 1);
        if failure is Some {
            (t, results, failure)
        } else {
            match apply_meta_entry(t, entries[n - 1]) {
                Ok((u, result)) => (u, results.push(result), None),
                Err(error) => (t, results, Some(error)),
            }
        }
    }
}

proof fn lemma_failure_stays(s: MetaGroupView, entries: Seq<MetaEntryView>, n: int, m: int)
    requires
        0 <= n <= m,
        apply_meta_first(s, entries, n).2 is Some,
    ensures
        apply_meta_first(s, entries, m) == apply_meta_first(s, entries, n),
    decreases m - n,
{
    if n < m {
        lemma_failure_stays(s, entries, n, m - 1);
    }
}

/// The applier of the meta group's committed entries.
pub struct MetaRaftStateMachine {
    storage: Storage,
    sm: MetaStateMachine,
    applied: Option<RaftLogId>,
    membership: StoredMembership,
}

impl MetaRaftStateMachine {
    pub closed spec fn state(&self) -> MetaGroupView {
        MetaGroupView {
            storage: self.storage@,
            applied: self.applied,
            membership: self.membership@,
        }
    }

    /// An applier over a node's records.
    pub fn new(
        storage: Storage,
        applied: Option<RaftLogId>,
        membership: StoredMembership,
    ) -> (m: MetaRaftStateMachine)
        ensures
            m.state() == (MetaGroupView { storage: storage@, applied, membership: membership@ }),
    {
        MetaRaftStateMachine { storage, sm: MetaStateMachine::new(), applied, membership }
    }

    /// The applied position with the membership it reflects.
    pub fn applied_state(&self) -> (r: (Option<RaftLogId>, StoredMembership))
        ensures
            r.0 == self.state().applied,
            r.1@ == self.state().membership,
    {
        (self.applied, self.membership.duplicate())
    }

    /// The node's records.
    pub fn storage(&self) -> (s: &Storage)
        ensures
            s@ == self.state().storage,
    {
        &self.storage
    }

    /// Apply entries one by one. Where one fails, those before it stay applied.
    pub fn apply(&mut self, entries: &Vec<MetaEntry>) -> (r: Result<Vec<MetaApplyResult>, Error>)
        ensures
            ({
                let (state, results, failure) = apply_meta_first(
                    old(self).state(),
                    meta_log(entries@),
                    entries@.len() as int,
                );
                &&& final(self).state() == state
                &&& match r {
                    Ok(out) => failure is None && result_views(out@) == results,
                    Err(e) => failure == Some(e@),
                }
            }),
    {
        let ghost log = meta_log(entries@);
        let ghost before = self.state();
        let mut results: Vec<MetaApplyResult> = Vec::new();
        let mut i: usize = 0;
        assert(result_views(results@) =~= Seq::<ResultView>::empty());
        while i < entries.len()
            invariant
                i <= entries@.len(),
                log == meta_log(entries@),
                before == old(self).state(),
                apply_meta_first(before, log, i as int) == (
                    self.state(),
                    result_views(results@),
                    None::<ErrorView>,
                ),
            decreases entries@.len() - i,
        {
            let entry = &entries[i];
            let ghost so_far = results@;
            assert(log[i as int] == entry@);
            match &entry.payload {
                MetaPayload::Blank => {
                    results.push(MetaApplyResult::NoOp);
                },
                MetaPayload::Membership(voters) => {
                    self.membership = StoredMembership {
                        log_id: Some(entry.log_id),
                        voters: voters.clone(),
                    };
                    results.push(MetaApplyResult::NoOp);
                },
                MetaPayload::Normal(cmd) => {
                    match self.sm.evaluate(&self.storage, cmd, entry.log_id.position()) {
                        Ok((result, muts)) => {
                            self.storage.meta.mutate_all(muts);
                            results.push(result);
                        },
                        Err(e) => {
                            proof {
                                assert(apply_meta_first(before, log, i + 1).2 == Some(e@));
                                lemma_failure_stays(before, log, i + 1, log.len() as int);
                            }
                            return Err(e);
                        },
                    }
                },
            }
            self.applied = Some(entry.log_id);
            proof {
                assert(result_views(results@) =~= result_views(so_far).push(results@.last()@));
                assert(self.state() =~= apply_meta_first(before, log, i + 1).0);
            }
            i += 1;
        }
        Ok(results)
    }

    /// The group's records for a snapshot, each as the change that stores it.
    pub fn snapshot_records(&self) -> (out: Vec<MetaMutation>)
        ensures
            mutation_views(out@) == self.state().storage.meta.puts(),
    {
        self.storage.meta.to_records()
    }

    /// A snapshot of the group's rows, as they are stored, at the applied position.
    pub fn build_snapshot(&self, rows: &Vec<(Vec<u8>, Vec<u8>)>) -> (s: Snapshot)
        ensures
            s.last_log_id == self.state().applied,
            s.last_membership@ == self.state().membership,
            s.snapshot_id@ == snapshot_name(self.state().applied),
            s.data@ == <Vec<Pair> as Wire>::wire(pair_views(rows@)),
            keys_distinct(pair_views(rows@)) ==> snapshot_records(s.data@) == Some(
                as_map(pair_views(rows@)),
            ),
    {
        snapshot_of(rows, self.applied, &self.membership)
    }

    /// The current snapshot; a group that has applied nothing has none.
    pub fn get_current_snapshot(&self, rows: &Vec<(Vec<u8>, Vec<u8>)>) -> (r: Option<Snapshot>)
        ensures
            match r {
                None => self.state().applied is None,
                Some(s) => {
                    &&& self.state().applied is Some
                    &&& s.last_log_id == self.state().applied
                    &&& s.last_membership@ == self.state().membership
                    &&& s.snapshot_id@ == snapshot_name(self.state().applied)
                    &&& s.data@ == <Vec<Pair> as Wire>::wire(pair_views(rows@))
                },
            },
    {
        if self.applied.is_none() {
            return None;
        }
        Some(self.build_snapshot(rows))
    }

    /// Replace the group's records by those that a snapshot holds.
    pub fn install_snapshot(
        &mut self,
        records: Vec<MetaMutation>,
        last_log_id: Option<RaftLogId>,
        membership: StoredMembership,
    )
        ensures
            final(self).state() == installed(
                old(self).state(),
                mutation_views(records@),
                last_log_id,
                membership@,
            ),
    {
        self.storage.meta = MetaState::from_records(records);
        self.applied = last_log_id;
        self.membership = membership;
    }
}

/// The state that a snapshot's records, position and membership leave.
pub open spec fn installed(
    s: MetaGroupView,
    records: Seq<MutationView>,
    last_log_id: Option<RaftLogId>,
    membership: MembershipView,
) -> MetaGroupView {
    MetaGroupView {
        storage: StorageView { meta: after_all(MetaView::empty(), records), ..s.storage },
        applied: last_log_id,
        membership,
    }
}

/// Installing a snapshot brings a replica, whatever it held before, to the state
/// that the snapshot was taken from: its records, its position and its membership.
pub proof fn law_meta_snapshot_round_trip(source: MetaGroupView, target: MetaGroupView)
    requires
        source.storage.meta.well_formed(),
    ensures
        ({
            let t = installed(
                target,
                source.storage.meta.puts(),
                source.applied,
                source.membership,
            );
            &&& t.storage.meta == (MetaView { last_applied: None, ..source.storage.meta })
            &&& t.applied == source.applied
            &&& t.membership == source.membership
        }),
{
    law_records_round_trip(source.storage.meta);
}

/// Where no entry fails, a run gives one result per entry, and every entry is
/// decided on what the entries before it left.
pub proof fn law_meta_entries_apply_in_order(
    s: MetaGroupView,
    entries: Seq<MetaEntryView>,
    n: int,
    i: int,
)
    requires
        0 <= i < n <= entries.len(),
        apply_meta_first(s, entries, n).2 is None,
    ensures
        apply_meta_first(s, entries, n).1.len() == n,
        apply_meta_entry(apply_meta_first(s, entries, i).0, entries[i]) == Ok::<
            (MetaGroupView, ResultView),
            ErrorView,
        >((apply_meta_first(s, entries, i + 1).0, apply_meta_first(s, entries, n).1[i])),
    decreases n,
{
    if n - 1 > i {
        law_meta_entries_apply_in_order(s, entries, n - 1, i);
    } else {
        lemma_results_len(s, entries, n - 1);
    }
}

proof fn lemma_results_len(s: MetaGroupView, entries: Seq<MetaEntryView>, n: int)
    requires
        0 <= n <= entries.len(),
        apply_meta_first(s, entries, n).2 is None,
    ensures
        apply_meta_first(s, entries, n).1.len() == n,
    decreases n,
{
    if n > 0 {
        lemma_results_len(s, entries, n - 1);
    }
}

/// An applied entry is the last one applied. Only a membership entry changes the
/// membership, to its own voters at its own position; only a command changes the
/// records, as the rules say at its log position, and only a command is answered
/// with more than that nothing changed.
pub proof fn law_meta_entries_take_effect(s: MetaGroupView, e: MetaEntryView)
    ensures
        apply_meta_entry(s, e) matches Ok((t, result)) ==> {
            &&& t.applied == Some(e.log_id)
            &&& match e.payload {
                MetaPayloadView::Blank => t.storage == s.storage && t.membership == s.membership
                    && result == ResultView::NoOp,
                MetaPayloadView::Membership(voters) => t.storage == s.storage && t.membership
                    == (MembershipView { log_id: Some(e.log_id), voters }) && result
                    == ResultView::NoOp,
                MetaPayloadView::Normal(cmd) => {
                    let at = LogId { term: e.log_id.term, index: e.log_id.index };
                    &&& t.membership == s.membership
                    &&& answer(s.storage, cmd, at) == Some(result)
                    &&& t.storage == (StorageView { meta: t.storage.meta, ..s.storage })
                    &&& t.storage.meta == (MetaView {
                        last_applied: t.storage.meta.last_applied,
                        ..meta_after(s.storage, cmd, at)
                    })
                },
            }
        },
        apply_meta_entry(s, e) is Err <==> (e.payload matches MetaPayloadView::Normal(cmd)
            && answer(
            s.storage,
            cmd,
            LogId { term: e.log_id.term, index: e.log_id.index },
        ) is None),
{
}

} // verus!
