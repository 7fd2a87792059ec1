//! What holds of every command that a data group applies.
use crate::assoc::{get, holds_key, keys_distinct, lemma_put, lemma_slot, lemma_slot_is, slot};
use crate::keyspace::{
    law_seq_key_injective, law_user_key_injective, law_user_keys_stand_apart, seq_bytes, user_bytes,
};
use crate::partition::state_machine::{
    change_value, condition_met, entry_decision, key_at, key_wire, law_key_record_round_trip,
    law_seq_record_round_trip, op_digest, pending_change, pending_changes, seq_at, seq_wire,
    staged_over, ApplyResult, EntryDecision, Found, KeyView, RejectReason, SeqRecord,
};
use crate::partition::table::{after_changes, Records, StateMutationView};
use crate::types::{
    ClientId, DataOpView, DataRequestView, GroupId, IfVersion, KeyPresence, MutationResult,
    Sequence, Version,
};
use vstd::prelude::*;

verus! {

/// What a request committed at a log index decides.
pub open spec fn decision_at(s: Records, req: DataRequestView, log_index: u64) -> EntryDecision {
    entry_decision(s, req, op_digest(req.op), log_index)
}

/// The outcome of a request, if every record it needs can be read.
pub open spec fn outcome_at(s: Records, req: DataRequestView, log_index: u64) -> Option<
    ApplyResult,
> {
    match decision_at(s, req, log_index) {
        EntryDecision::Decided(result, _) => Some(result),
        EntryDecision::Failed => None,
    }
}

/// The records that a request leaves.
pub open spec fn records_after(s: Records, req: DataRequestView, log_index: u64) -> Records {
    match decision_at(s, req, log_index) {
        EntryDecision::Decided(_, muts) => after_changes(s, muts),
        EntryDecision::Failed => s,
    }
}

/// The highest sequence that a client has had decided; none is 0.
pub open spec fn highest_of(s: Records, client_id: ClientId) -> Sequence {
    match seq_at(s, client_id) {
        Found::Present(r) => r.highest,
        _ => 0,
    }
}

/// Whether a request is one that no state accepts.
pub open spec fn malformed(req: DataRequestView) -> bool {
    req.op is Delete && req.op.if_version() == Some(IfVersion::Absent)
}

/// The records that a freshly decided request leaves, spelled out.
proof fn lemma_fresh_effect(s: Records, req: DataRequestView, log_index: u64, result: MutationResult)
    requires
        outcome_at(s, req, log_index) == Some(ApplyResult::Decided(result)),
    ensures
        records_after(s, req, log_index) == ({
            let touched = match (result, req.op) {
                (MutationResult::Applied { .. }, DataOpView::Put { key, value, .. }) => s.insert(
                    user_bytes(key),
                    key_wire(KeyView { version: log_index, value }),
                ),
                (MutationResult::Applied { .. }, DataOpView::Delete { key, .. }) => s.remove(
                    user_bytes(key),
                ),
                _ => s,
            };
            touched.insert(
                seq_bytes(req.client_id),
                seq_wire(
                    SeqRecord { highest: req.sequence, digest: op_digest(req.op), result },
                ),
            )
        }),
        result is Applied ==> result == (MutationResult::Applied { version: log_index }),
        req.sequence == highest_of(s, req.client_id) + 1,
        !malformed(req),
{
    let muts = decision_at(s, req, log_index)->Decided_1;
    reveal_with_fuel(after_changes, 3);
    let head = muts.drop_last();
    assert(muts.last() == (StateMutationView::Put {
        key: seq_bytes(req.client_id),
        value: seq_wire(
            SeqRecord { highest: req.sequence, digest: op_digest(req.op), result },
        ),
    }));
    let changes = match key_at(s, req.op.key()) {
        Found::Present(r) => crate::partition::state_machine::op_decision(
            Some(r),
            req.op,
            log_index,
        ).1,
        _ => crate::partition::state_machine::op_decision(None, req.op, log_index).1,
    };
    assert(head =~= changes);
    if changes.len() > 0 {
        assert(changes.drop_last() =~= Seq::<StateMutationView>::empty());
    } else if result is Applied {
        assert(s.remove(user_bytes(req.op.key())) =~= s);
    }
}

proof fn lemma_user_is_not_seq(key: Seq<u8>, client_id: ClientId)
    ensures
        user_bytes(key) != seq_bytes(client_id),
{
    law_user_keys_stand_apart(key, client_id, 0, GroupId::Meta, Seq::empty(), 0);
}

/// A command that is not freshly decided leaves every record as it was.
pub proof fn law_only_fresh_decisions_write(s: Records, req: DataRequestView, log_index: u64)
    requires
        !(outcome_at(s, req, log_index) matches Some(ApplyResult::Decided(_))),
    ensures
        records_after(s, req, log_index) == s,
{
}

/// A retry of a decided command, wherever it is committed, gets the stored
/// result back and changes nothing.
pub proof fn law_replay_is_idempotent(
    s: Records,
    req: DataRequestView,
    log_index: u64,
    retry_index: u64,
    result: MutationResult,
)
    requires
        outcome_at(s, req, log_index) == Some(ApplyResult::Decided(result)),
    ensures
        ({
            let t = records_after(s, req, log_index);
            &&& outcome_at(t, req, retry_index) == Some(ApplyResult::Replayed(result))
            &&& records_after(t, req, retry_index) == t
        }),
{
    lemma_fresh_effect(s, req, log_index, result);
    law_seq_record_round_trip(
        SeqRecord { highest: req.sequence, digest: op_digest(req.op), result },
    );
}

/// The records that a run of committed commands leaves, each at its log index.
pub open spec fn after_commands(s: Records, run: Seq<(DataRequestView, u64)>) -> Records
    decreases run.len(),
{
    if run.len() == 0 {
        s
    } else {
        records_after(after_commands(s, run.drop_last()), run.last().0, run.last().1)
    }
}

/// A mutation is applied once, however often it is committed and whatever other
/// clients commit in between: until the client moves on to its next sequence,
/// every retry gets the first result back and changes nothing.
pub proof fn law_retries_apply_once(
    s: Records,
    req: DataRequestView,
    log_index: u64,
    result: MutationResult,
    between: Seq<(DataRequestView, u64)>,
    retry_index: u64,
)
    requires
        outcome_at(s, req, log_index) == Some(ApplyResult::Decided(result)),
        forall|k: int|
            0 <= k < between.len() ==> (#[trigger] between[k]).0.client_id != req.client_id
                || between[k].0.sequence <= req.sequence,
    ensures
        ({
            let t = after_commands(records_after(s, req, log_index), between);
            &&& outcome_at(t, req, retry_index) == Some(ApplyResult::Replayed(result))
            &&& records_after(t, req, retry_index) == t
        }),
{
    lemma_record_stays(s, req, log_index, result, between);
    lemma_fresh_effect(s, req, log_index, result);
}

/// The client's record stays as the decision left it while nothing newer of that
/// client is committed.
proof fn lemma_record_stays(
    s: Records,
    req: DataRequestView,
    log_index: u64,
    result: MutationResult,
    between: Seq<(DataRequestView, u64)>,
)
    requires
        outcome_at(s, req, log_index) == Some(ApplyResult::Decided(result)),
        forall|k: int|
            0 <= k < between.len() ==> (#[trigger] between[k]).0.client_id != req.client_id
                || between[k].0.sequence <= req.sequence,
    ensures
        seq_at(after_commands(records_after(s, req, log_index), between), req.client_id)
            == Found::Present(SeqRecord { highest: req.sequence, digest: op_digest(req.op), result }),
    decreases between.len(),
{
    if between.len() == 0 {
        lemma_fresh_effect(s, req, log_index, result);
        law_seq_record_round_trip(
            SeqRecord { highest: req.sequence, digest: op_digest(req.op), result },
        );
    } else {
        let head = between.drop_last();
        assert forall|k: int| 0 <= k < head.len() implies (#[trigger] head[k]).0.client_id
            != req.client_id || head[k].0.sequence <= req.sequence by {
            assert(head[k] == between[k]);
        }
        lemma_record_stays(s, req, log_index, result, head);
        let t = after_commands(records_after(s, req, log_index), head);
        let (last, at) = between.last();
        assert(between[between.len() - 1] == between.last());
        law_other_records_are_untouched(t, last, at, last.op.key(), req.client_id);
        law_sequences_advance_by_one(t, last, at);
    }
}

/// A sequence reused for an operation with another digest is refused, and
/// nothing changes.
pub proof fn law_reused_sequence_is_refused(
    s: Records,
    req: DataRequestView,
    other: DataRequestView,
    log_index: u64,
    reuse_index: u64,
    result: MutationResult,
)
    requires
        outcome_at(s, req, log_index) == Some(ApplyResult::Decided(result)),
        other.client_id == req.client_id,
        other.sequence == req.sequence,
        op_digest(other.op) != op_digest(req.op),
        !malformed(other),
    ensures
        ({
            let t = records_after(s, req, log_index);
            &&& outcome_at(t, other, reuse_index) == Some(
                ApplyResult::Rejected(RejectReason::SequenceMismatch),
            )
            &&& records_after(t, other, reuse_index) == t
        }),
{
    lemma_fresh_effect(s, req, log_index, result);
    law_seq_record_round_trip(
        SeqRecord { highest: req.sequence, digest: op_digest(req.op), result },
    );
}

/// A client's sequences are decided one after the other: a fresh decision
/// advances its record by one, every other outcome leaves it.
pub proof fn law_sequences_advance_by_one(s: Records, req: DataRequestView, log_index: u64)
    ensures
        ({
            let t = records_after(s, req, log_index);
            if outcome_at(s, req, log_index) matches Some(ApplyResult::Decided(_)) {
                &&& req.sequence == highest_of(s, req.client_id) + 1
                &&& highest_of(t, req.client_id) == req.sequence
            } else {
                seq_at(t, req.client_id) == seq_at(s, req.client_id)
            }
        }),
{
    match outcome_at(s, req, log_index) {
        Some(ApplyResult::Decided(result)) => {
            lemma_fresh_effect(s, req, log_index, result);
            law_seq_record_round_trip(
                SeqRecord { highest: req.sequence, digest: op_digest(req.op), result },
            );
        },
        _ => {},
    }
}

/// An applied put is read back: the value, with the log index as its version.
pub proof fn law_put_is_read_back(
    s: Records,
    req: DataRequestView,
    log_index: u64,
    key: Seq<u8>,
    value: Seq<u8>,
    if_version: Option<IfVersion>,
)
    requires
        req.op == (DataOpView::Put { key, value, if_version }),
        value.len() <= usize::MAX,
        outcome_at(s, req, log_index) matches Some(
            ApplyResult::Decided(MutationResult::Applied { .. }),
        ),
    ensures
        key_at(records_after(s, req, log_index), key) == Found::Present(
            KeyView { version: log_index, value },
        ),
{
    match outcome_at(s, req, log_index) {
        Some(ApplyResult::Decided(result)) => {
            lemma_fresh_effect(s, req, log_index, result);
            lemma_user_is_not_seq(key, req.client_id);
            law_key_record_round_trip(KeyView { version: log_index, value });
        },
        _ => {},
    }
}

/// After an applied delete the key is absent.
pub proof fn law_delete_removes_the_key(
    s: Records,
    req: DataRequestView,
    log_index: u64,
    key: Seq<u8>,
    if_version: Option<IfVersion>,
)
    requires
        req.op == (DataOpView::Delete { key, if_version }),
        outcome_at(s, req, log_index) matches Some(
            ApplyResult::Decided(MutationResult::Applied { .. }),
        ),
    ensures
        key_at(records_after(s, req, log_index), key) is Absent,
{
    match outcome_at(s, req, log_index) {
        Some(ApplyResult::Decided(result)) => {
            lemma_fresh_effect(s, req, log_index, result);
            lemma_user_is_not_seq(key, req.client_id);
        },
        _ => {},
    }
}

/// A command touches no key but its own, and no other client's record.
pub proof fn law_other_records_are_untouched(
    s: Records,
    req: DataRequestView,
    log_index: u64,
    key: Seq<u8>,
    client_id: ClientId,
)
    ensures
        ({
            let t = records_after(s, req, log_index);
            &&& key != req.op.key() ==> key_at(t, key) == key_at(s, key)
            &&& client_id != req.client_id ==> seq_at(t, client_id) == seq_at(s, client_id)
        }),
{
    match outcome_at(s, req, log_index) {
        Some(ApplyResult::Decided(result)) => {
            lemma_fresh_effect(s, req, log_index, result);
            lemma_user_is_not_seq(key, req.client_id);
            lemma_user_is_not_seq(req.op.key(), client_id);
            if user_bytes(key) == user_bytes(req.op.key()) {
                law_user_key_injective(key, req.op.key());
            }
            if seq_bytes(client_id) == seq_bytes(req.client_id) {
                law_seq_key_injective(client_id, req.client_id);
            }
        },
        _ => {},
    }
}

/// A command that is not applied leaves its key as it was.
pub proof fn law_unapplied_commands_keep_the_key(
    s: Records,
    req: DataRequestView,
    log_index: u64,
    key: Seq<u8>,
)
    requires
        !(outcome_at(s, req, log_index) matches Some(
            ApplyResult::Decided(MutationResult::Applied { .. }),
        )),
    ensures
        key_at(records_after(s, req, log_index), key) == key_at(s, key),
{
    match outcome_at(s, req, log_index) {
        Some(ApplyResult::Decided(result)) => {
            lemma_fresh_effect(s, req, log_index, result);
            lemma_user_is_not_seq(key, req.client_id);
        },
        _ => {},
    }
}

/// A freshly decided command is applied exactly when the key's current record
/// meets its condition.
pub proof fn law_condition_decides(
    s: Records,
    req: DataRequestView,
    log_index: u64,
    result: MutationResult,
)
    requires
        outcome_at(s, req, log_index) == Some(ApplyResult::Decided(result)),
    ensures
        result is Applied <==> condition_met(
            match key_at(s, req.op.key()) {
                Found::Present(r) => Some(r),
                _ => None,
            },
            req.op,
        ),
        result is Applied ==> result == (MutationResult::Applied { version: log_index }),
{
    lemma_fresh_effect(s, req, log_index, result);
}

/// A freshly decided put or delete that names a version is applied if and only if
/// the key is present at exactly that version. At any other version, higher or
/// lower, and where the key is absent, the condition fails: the answer is what is
/// stored, and the key stays as it was.
pub proof fn law_version_must_be_equal(
    s: Records,
    req: DataRequestView,
    log_index: u64,
    key: Seq<u8>,
    value: Seq<u8>,
    v: Version,
    result: MutationResult,
)
    requires
        req.op == (DataOpView::Put { key, value, if_version: Some(IfVersion::Number(v)) })
            || req.op == (DataOpView::Delete { key, if_version: Some(IfVersion::Number(v)) }),
        outcome_at(s, req, log_index) == Some(ApplyResult::Decided(result)),
    ensures
        match key_at(s, key) {
            Found::Present(r) => if r.version == v {
                result == (MutationResult::Applied { version: log_index })
            } else {
                &&& result == (MutationResult::ConditionFailed {
                    current: KeyPresence::Present { version: r.version },
                })
                &&& key_at(records_after(s, req, log_index), key) == Found::Present(r)
            },
            Found::Absent => {
                &&& result == (MutationResult::ConditionFailed { current: KeyPresence::Absent })
                &&& key_at(records_after(s, req, log_index), key) is Absent
            },
            Found::Corrupt => false,
        },
{
    if !(result is Applied) {
        law_unapplied_commands_keep_the_key(s, req, log_index, key);
    }
}

/// A freshly decided put that asks for an absent key is applied if and only if
/// the key is absent; where it is present the answer is its version, and it stays
/// as it was. One that names no condition is applied whatever is stored, and so
/// is a delete, of an absent key too.
pub proof fn law_absence_and_no_condition(
    s: Records,
    req: DataRequestView,
    log_index: u64,
    key: Seq<u8>,
    value: Seq<u8>,
    result: MutationResult,
)
    requires
        outcome_at(s, req, log_index) == Some(ApplyResult::Decided(result)),
    ensures
        req.op == (DataOpView::Put { key, value, if_version: None }) ==> result == (
        MutationResult::Applied { version: log_index }),
        req.op == (DataOpView::Delete { key, if_version: None }) ==> result == (
        MutationResult::Applied { version: log_index }),
        req.op == (DataOpView::Put { key, value, if_version: Some(IfVersion::Absent) })
            ==> match key_at(s, key) {
            Found::Absent => result == (MutationResult::Applied { version: log_index }),
            Found::Present(r) => {
                &&& result == (MutationResult::ConditionFailed {
                    current: KeyPresence::Present { version: r.version },
                })
                &&& key_at(records_after(s, req, log_index), key) == Found::Present(r)
            },
            Found::Corrupt => false,
        },
{
    if !(result is Applied) {
        law_unapplied_commands_keep_the_key(s, req, log_index, key);
    }
}

/// Which outcome a command gets follows from its sequence and the client's record
/// alone. A delete that asks for an absent key is malformed whatever is stored.
/// Else the sequence after the highest one decided, which for a new client is one,
/// is decided afresh; the highest one again gives back the stored result where the
/// operation is the same and is refused as a mismatch where it is not; a lower one
/// is stale and a higher one leaves a gap.
pub proof fn law_sequence_decides_the_outcome(s: Records, req: DataRequestView, log_index: u64)
    ensures
        ({
            let outcome = outcome_at(s, req, log_index);
            let highest = highest_of(s, req.client_id);
            let absent_delete = exists|key: Seq<u8>|
                req.op == (#[trigger] absent_delete_of(key));
            &&& outcome == Some(ApplyResult::Rejected(RejectReason::Malformed)) <==> absent_delete
            &&& !absent_delete ==> match seq_at(s, req.client_id) {
                Found::Corrupt => outcome is None,
                Found::Present(r) => {
                    &&& req.sequence == r.highest && r.digest == op_digest(req.op) ==> outcome
                        == Some(ApplyResult::Replayed(r.result))
                    &&& req.sequence == r.highest && r.digest != op_digest(req.op) ==> outcome
                        == Some(ApplyResult::Rejected(RejectReason::SequenceMismatch))
                    &&& req.sequence < r.highest ==> outcome == Some(
                        ApplyResult::Rejected(
                            RejectReason::StaleSequence { highest: r.highest, got: req.sequence },
                        ),
                    )
                    &&& req.sequence > r.highest + 1 ==> (outcome matches Some(
                        ApplyResult::Rejected(RejectReason::SequenceGap { expected, got }),
                    ) && expected == r.highest + 1 && got == req.sequence)
                },
                Found::Absent => {
                    &&& req.sequence == 0 ==> outcome == Some(
                        ApplyResult::Rejected(RejectReason::StaleSequence { highest: 0, got: 0 }),
                    )
                    &&& req.sequence > 1 ==> outcome == Some(
                        ApplyResult::Rejected(
                            RejectReason::SequenceGap { expected: 1, got: req.sequence },
                        ),
                    )
                },
            }
            &&& !absent_delete && !(seq_at(s, req.client_id) is Corrupt) && req.sequence == highest
                + 1 ==> if key_at(s, req.op.key()) is Corrupt {
                outcome is None
            } else {
                outcome matches Some(ApplyResult::Decided(_))
            }
        }),
{
    if malformed(req) {
        assert(req.op == absent_delete_of(req.op.key()));
    }
}

/// The delete of a key that asks for it to be absent.
pub open spec fn absent_delete_of(key: Seq<u8>) -> DataOpView {
    DataOpView::Delete { key, if_version: Some(IfVersion::Absent) }
}

/// A fresh decision is what the client's record then holds: its sequence, the
/// digest of its operation and its result.
pub proof fn law_decisions_are_recorded(
    s: Records,
    req: DataRequestView,
    log_index: u64,
    result: MutationResult,
)
    requires
        outcome_at(s, req, log_index) == Some(ApplyResult::Decided(result)),
    ensures
        seq_at(records_after(s, req, log_index), req.client_id) == Found::Present(
            SeqRecord { highest: req.sequence, digest: op_digest(req.op), result },
        ),
{
    lemma_fresh_effect(s, req, log_index, result);
    law_seq_record_round_trip(
        SeqRecord { highest: req.sequence, digest: op_digest(req.op), result },
    );
}

/// Whether every readable key's version lies below a log index.
pub open spec fn versions_below(s: Records, bound: int) -> bool {
    forall|key: Seq<u8>|
        (#[trigger] key_at(s, key) matches Found::Present(r) ==> r.version < bound)
}

/// Versions rise with the log: a command at a new index leaves every version at
/// or below that index, so an applied put gives its key a version it never had.
pub proof fn law_versions_rise(s: Records, req: DataRequestView, log_index: u64)
    requires
        versions_below(s, log_index as int),
        crate::partition::state_machine::op_fits(req.op),
    ensures
        versions_below(records_after(s, req, log_index), log_index + 1),
{
    let t = records_after(s, req, log_index);
    assert forall|key: Seq<u8>| (#[trigger] key_at(t, key) matches Found::Present(r) ==> r.version
        < log_index + 1) by {
        law_other_records_are_untouched(s, req, log_index, key, 0);
        assert(key_at(s, key) matches Found::Present(r) ==> r.version < log_index);
        if key == req.op.key() {
            match outcome_at(s, req, log_index) {
                Some(ApplyResult::Decided(MutationResult::Applied { .. })) => match req.op {
                    DataOpView::Put { key: k, value, if_version } => {
                        law_put_is_read_back(s, req, log_index, k, value, if_version);
                    },
                    DataOpView::Delete { key: k, if_version } => {
                        law_delete_removes_the_key(s, req, log_index, k, if_version);
                    },
                },
                _ => {
                    law_unapplied_commands_keep_the_key(s, req, log_index, key);
                },
            }
        }
    }
}

// -- batches -----------------------------------------------------------------

/// What a batch of changes collapses to.
pub open spec fn collapsed(muts: Seq<StateMutationView>) -> Seq<StateMutationView> {
    pending_changes(staged_over(Seq::empty(), muts))
}

/// Whether a change is the last of a batch to its key.
pub open spec fn is_last(muts: Seq<StateMutationView>, i: int) -> bool {
    &&& 0 <= i < muts.len()
    &&& forall|j: int| i < j < muts.len() ==> (#[trigger] muts[j]).key() != muts[i].key()
}

/// What the last change of a batch to a key leaves there, if there is one.
spec fn last_value(muts: Seq<StateMutationView>, k: Seq<u8>) -> Option<Option<Seq<u8>>>
    decreases muts.len(),
{
    if muts.len() == 0 {
        None
    } else if muts.last().key() == k {
        Some(change_value(muts.last()))
    } else {
        last_value(muts.drop_last(), k)
    }
}

proof fn lemma_staged(muts: Seq<StateMutationView>, k: Seq<u8>)
    ensures
        keys_distinct(staged_over(Seq::empty(), muts)),
        get(staged_over(Seq::empty(), muts), k) == last_value(muts, k),
    decreases muts.len(),
{
    if muts.len() > 0 {
        let head = muts.drop_last();
        lemma_staged(head, k);
        lemma_put(
            staged_over(Seq::empty(), head),
            muts.last().key(),
            change_value(muts.last()),
        );
    }
}

proof fn lemma_last_value(muts: Seq<StateMutationView>, i: int)
    requires
        is_last(muts, i),
    ensures
        last_value(muts, muts[i].key()) == Some(change_value(muts[i])),
    decreases muts.len(),
{
    if i < muts.len() - 1 {
        let head = muts.drop_last();
        assert(muts[muts.len() - 1].key() != muts[i].key());
        assert forall|j: int| i < j < head.len() implies (#[trigger] head[j]).key()
            != head[i].key() by {
            assert(muts[j].key() != muts[i].key());
        }
        lemma_last_value(head, i);
    }
}

proof fn lemma_value_has_last(muts: Seq<StateMutationView>, k: Seq<u8>) -> (i: int)
    requires
        last_value(muts, k) is Some,
    ensures
        is_last(muts, i),
        muts[i].key() == k,
        last_value(muts, k) == Some(change_value(muts[i])),
    decreases muts.len(),
{
    if muts.last().key() == k {
        muts.len() - 1
    } else {
        let head = muts.drop_last();
        let i = lemma_value_has_last(head, k);
        assert forall|j: int| i < j < muts.len() implies (#[trigger] muts[j]).key()
            != muts[i].key() by {
            if j < head.len() {
                assert(head[j].key() != head[i].key());
            }
        }
        i
    }
}

proof fn lemma_after_changes(base: Records, muts: Seq<StateMutationView>, k: Seq<u8>)
    ensures
        after_changes(base, muts).contains_key(k) == match last_value(muts, k) {
            Some(change) => change is Some,
            None => base.contains_key(k),
        },
        after_changes(base, muts).contains_key(k) ==> after_changes(base, muts)[k] == match last_value(
            muts,
            k,
        ) {
            Some(Some(v)) => v,
            _ => base[k],
        },
    decreases muts.len(),
{
    if muts.len() > 0 {
        lemma_after_changes(base, muts.drop_last(), k);
    }
}

/// A batch collapses to one change per key that it touches, which is the last
/// change to that key, and to nothing else.
pub proof fn law_batches_collapse_to_last_changes(muts: Seq<StateMutationView>)
    ensures
        forall|i: int, j: int|
            0 <= i < j < collapsed(muts).len() ==> (#[trigger] collapsed(muts)[i]).key() != (
            #[trigger] collapsed(muts)[j]).key(),
        forall|i: int|
            is_last(muts, i) ==> collapsed(muts).contains(#[trigger] muts[i]),
        forall|i: int|
            0 <= i < collapsed(muts).len() ==> exists|k: int|
                is_last(muts, k) && #[trigger] muts[k] == #[trigger] collapsed(muts)[i],
{
    let staged = staged_over(Seq::<(Seq<u8>, Option<Seq<u8>>)>::empty(), muts);
    let out = collapsed(muts);
    lemma_staged(muts, Seq::empty());
    assert forall|i: int, j: int| 0 <= i < j < out.len() implies (#[trigger] out[i]).key() != (
    #[trigger] out[j]).key() by {
        assert(staged[i].0 != staged[j].0);
    }
    assert forall|i: int| is_last(muts, i) implies out.contains(#[trigger] muts[i]) by {
        let k = muts[i].key();
        lemma_last_value(muts, i);
        lemma_staged(muts, k);
        lemma_slot(staged, k);
        assert(staged[slot(staged, k)] == (k, change_value(muts[i])));
        assert(out[slot(staged, k)] == muts[i]);
    }
    assert forall|i: int| 0 <= i < out.len() implies exists|k: int|
        is_last(muts, k) && #[trigger] muts[k] == #[trigger] out[i] by {
        let key = staged[i].0;
        assert forall|j: int| 0 <= j < i implies (#[trigger] staged[j]).0 != key by {
            assert(staged[j].0 != staged[i].0);
        }
        lemma_slot_is(staged, key, i);
        lemma_staged(muts, key);
        assert(holds_key(staged, key));
        let k = lemma_value_has_last(muts, key);
        assert(out[i] == pending_change(staged[i]));
        assert(muts[k] == out[i]);
    }
}

/// The changes that a batch collapses to can be made in any order, on any
/// records: they do what the whole batch does in its order.
pub proof fn law_collapsed_changes_commute(
    muts: Seq<StateMutationView>,
    order: Seq<StateMutationView>,
    base: Records,
)
    requires
        order.no_duplicates(),
        order.to_set() == collapsed(muts).to_set(),
    ensures
        after_changes(base, order) == after_changes(base, muts),
{
    let out = collapsed(muts);
    law_batches_collapse_to_last_changes(muts);
    assert forall|i: int, j: int| 0 <= i < j < order.len() implies (#[trigger] order[i]).key() != (
    #[trigger] order[j]).key() by {
        assert(order.to_set().contains(order[i]) && order.to_set().contains(order[j]));
        let a = out.index_of(order[i]);
        let b = out.index_of(order[j]);
        assert(out[a] == order[i] && out[b] == order[j]);
        assert(order[i] != order[j]);
        if a < b {
            assert(out[a].key() != out[b].key());
        } else {
            assert(out[b].key() != out[a].key());
        }
    }
    assert forall|k: Seq<u8>| #[trigger] last_value(order, k) == last_value(muts, k) by {
        if last_value(muts, k) is Some {
            let i = lemma_value_has_last(muts, k);
            assert(out.to_set().contains(muts[i]));
            let j = order.index_of(muts[i]);
            assert(order[j] == muts[i]);
            assert(is_last(order, j));
            lemma_last_value(order, j);
        } else if last_value(order, k) is Some {
            let j = lemma_value_has_last(order, k);
            assert(order.to_set().contains(order[j]));
            let i = out.index_of(order[j]);
            assert(out[i] == order[j]);
            let l = choose|l: int| is_last(muts, l) && #[trigger] muts[l] == out[i];
            lemma_last_value(muts, l);
            assert(false);
        }
    }
    let a = after_changes(base, order);
    let b = after_changes(base, muts);
    assert forall|k: Seq<u8>| #[trigger] a.contains_key(k) == b.contains_key(k) by {
        lemma_after_changes(base, order, k);
        lemma_after_changes(base, muts, k);
        assert(last_value(order, k) == last_value(muts, k));
    }
    assert forall|k: Seq<u8>| a.contains_key(k) implies #[trigger] a[k] == b[k] by {
        lemma_after_changes(base, order, k);
        lemma_after_changes(base, muts, k);
        assert(last_value(order, k) == last_value(muts, k));
        assert(b.contains_key(k));
    }
    assert(a =~= b);
}

/// Staging one run of changes after another stages them all in their order.
pub proof fn law_runs_stage_in_turn(
    pending: Seq<(Seq<u8>, Option<Seq<u8>>)>,
    first: Seq<StateMutationView>,
    second: Seq<StateMutationView>,
)
    ensures
        staged_over(staged_over(pending, first), second) == staged_over(pending, first + second),
    decreases second.len(),
{
    if second.len() == 0 {
        assert(first + second =~= first);
    } else {
        law_runs_stage_in_turn(pending, first, second.drop_last());
        assert((first + second).drop_last() =~= first + second.drop_last());
        assert((first + second).last() == second.last());
    }
}

} // verus!
