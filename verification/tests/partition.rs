//! One partition: its state machine, log, links and reads.
use dal::error::Error;
use dal::keyspace::user_key;
use dal::partition::log_store::{
    committed_key, covered_rows, entry_index, entry_key, purged_key, range_of,
    scan_end_key, vote_key, EncodedEntry, LogBound, LogWrite, RocksLogStore,
};
use dal::partition::network::{deliver, link_down_text, target_gone_text, Delivery, Faults};
use dal::partition::node::{
    apply_recovery_fence, begin_fence, begin_read, begin_write, complete_recovery_fence,
    confirmed_committed_config, continue_read, finish_fence, recovery_after_check,
    recovery_after_write, require_data_group, search_relaxed, search_strict,
    validate_recovery_fence, write_outcome, FenceStep, LeaderCheck, Leadership, ReadStep, Recovery,
    RecoveryFence, RecoveryFenceReply, ReplicaView, SearchBarrier, WriteOutcome, WriteReport,
};
use dal::partition::raft_types::RaftLogId;
use dal::partition::sm::{
    CurrentSnapshot, Entry, EntryPayload, RocksStateMachine, StoredMembership,
};
use dal::partition::state_machine::{
    digest, ApplyResult, DataStateMachine, RejectReason, StateOverlay,
};
use dal::partition::table::{StateMutation, StateRead, StateTable};
use dal::storage::Storage;
use dal::time::Duration;
use dal::types::{
    BootstrapGroup, Consistency, DataOp, DataRequest, GroupId, IfVersion, KeyPresence,
    LearnerAdmission, LogId, MutationResult,
};
use std::sync::{Arc, Mutex};

const GROUP: GroupId = GroupId::Data(0);

fn log_id(index: u64) -> RaftLogId {
    RaftLogId { term: 1, node_id: 1, index }
}

fn put(key: &[u8], value: &[u8], if_version: Option<IfVersion>) -> DataOp {
    DataOp::Put { key: key.to_vec(), value: value.to_vec(), if_version }
}

fn delete(key: &[u8], if_version: Option<IfVersion>) -> DataOp {
    DataOp::Delete { key: key.to_vec(), if_version }
}

fn request(client_id: u128, sequence: u64, op: DataOp) -> DataRequest {
    DataRequest { client_id, sequence, op }
}

fn entry(index: u64, req: DataRequest) -> Entry {
    Entry { log_id: log_id(index), payload: EntryPayload::Normal(req) }
}

fn membership() -> StoredMembership {
    StoredMembership { log_id: None, voters: Vec::new() }
}

fn machine() -> RocksStateMachine {
    RocksStateMachine::new(StateTable::new(), GROUP, None, None, membership())
}

fn applied(version: u64) -> ApplyResult {
    ApplyResult::Decided(MutationResult::Applied { version })
}

#[test]
fn a_retry_among_other_clients_applies_once() {
    let sm = DataStateMachine::new(GROUP);
    let mut table = StateTable::new();
    let first = request(7, 1, put(b"k", b"mine", None));
    let other = request(8, 1, put(b"k", b"theirs", None));
    assert_eq!(sm.apply(&mut table, &first, 3), Ok(applied(3)));
    assert_eq!(sm.apply(&mut table, &other, 4), Ok(applied(4)));
    let replay = ApplyResult::Replayed(MutationResult::Applied { version: 3 });
    assert_eq!(sm.apply(&mut table, &first, 5), Ok(replay));
    assert_eq!(sm.apply(&mut table, &first, 6), Ok(replay));
    assert_eq!(sm.get(&table, b"k"), Ok(Some((4, b"theirs".to_vec()))));
}

#[test]
fn coalesced_batch_observes_same_client_and_same_key_predecessors() {
    let entries = vec![
        entry(10, request(7, 1, put(b"k", b"v1", None))),
        entry(11, request(7, 2, put(b"k", b"v2", Some(IfVersion::Number(10))))),
        entry(12, request(7, 3, delete(b"k", Some(IfVersion::Number(11))))),
    ];
    let mut sm = machine();
    assert_eq!(
        sm.apply_coalesced(&entries),
        Ok(vec![applied(10), applied(11), applied(12)])
    );
    assert_eq!(sm.get(b"k"), Ok(None));
    assert_eq!(sm.read_applied().0, Some(log_id(12)));
    assert_eq!(sm.read_committed(), Some(log_id(12)));
}

#[test]
fn both_ways_of_applying_agree() {
    let entries = vec![
        Entry { log_id: log_id(1), payload: EntryPayload::Membership(vec![1, 2, 3]) },
        Entry { log_id: log_id(2), payload: EntryPayload::Blank },
        entry(3, request(7, 1, put(b"k", b"v1", None))),
        entry(4, request(8, 1, put(b"k", b"v2", Some(IfVersion::Absent)))),
        entry(5, request(7, 1, put(b"k", b"v1", None))),
    ];
    let want = vec![
        ApplyResult::NoOp,
        ApplyResult::NoOp,
        applied(3),
        ApplyResult::Decided(MutationResult::ConditionFailed {
            current: KeyPresence::Present { version: 3 },
        }),
        ApplyResult::Replayed(MutationResult::Applied { version: 3 }),
    ];
    for coalesce in [true, false] {
        let mut sm = machine();
        assert_eq!(sm.apply(&entries, coalesce), Ok(want.clone()));
        assert_eq!(sm.get(b"k"), Ok(Some((3, b"v1".to_vec()))));
        assert_eq!(
            sm.read_applied(),
            (
                Some(log_id(5)),
                StoredMembership { log_id: Some(log_id(1)), voters: vec![1, 2, 3] }
            )
        );
    }
}

#[test]
fn snapshot_carries_the_state() {
    let mut source = machine();
    let write = entry(20, request(7, 1, put(b"snapshot-key", b"snapshot-value", None)));
    assert_eq!(source.apply(&vec![write], true), Ok(vec![applied(20)]));
    let snapshot = source.build_snapshot(Some(log_id(20))).unwrap();
    assert_eq!(snapshot.last_log_id, Some(log_id(20)));

    let mut target = machine();
    let full = Error::Rocks("full".to_string());
    let (at, members) = (snapshot.last_log_id, snapshot.last_membership.clone());
    let refused = target.install_snapshot(Some(&full), at, members, &snapshot.data);
    assert_eq!(refused, Err(full));
    assert_eq!(target.read_applied().0, None);
    assert_eq!(
        target.install_snapshot(
            None,
            snapshot.last_log_id,
            snapshot.last_membership.clone(),
            &snapshot.data
        ),
        Ok(())
    );
    assert_eq!(
        target.get(b"snapshot-key"),
        Ok(Some((20, b"snapshot-value".to_vec())))
    );
    assert_eq!(target.read_applied().0, Some(log_id(20)));
    // A replay is recognised on the target too.
    let again = entry(21, request(7, 1, put(b"snapshot-key", b"snapshot-value", None)));
    assert_eq!(
        target.apply(&vec![again], false),
        Ok(vec![ApplyResult::Replayed(MutationResult::Applied { version: 20 })])
    );
}

#[test]
fn a_snapshot_that_cannot_be_read_is_refused() {
    let mut target = machine();
    let garbage = vec![0xff; 9];
    assert!(matches!(
        target.install_snapshot(None, Some(log_id(3)), membership(), &garbage),
        Err(Error::Codec(_))
    ));
    assert_eq!(target.read_applied().0, None);
}

#[test]
fn sequences_advance_by_one() {
    let sm = DataStateMachine::new(GROUP);
    let mut table = StateTable::new();
    let mut at = |seq: u64, index: u64, op: DataOp| {
        sm.apply(&mut table, &request(7, seq, op), index).unwrap()
    };
    assert_eq!(
        at(2, 1, put(b"a", b"1", None)),
        ApplyResult::Rejected(RejectReason::SequenceGap { expected: 1, got: 2 })
    );
    assert_eq!(at(1, 2, put(b"a", b"1", None)), applied(2));
    assert_eq!(
        at(1, 3, put(b"a", b"1", None)),
        ApplyResult::Replayed(MutationResult::Applied { version: 2 })
    );
    assert_eq!(
        at(1, 4, put(b"a", b"2", None)),
        ApplyResult::Rejected(RejectReason::SequenceMismatch)
    );
    assert_eq!(at(2, 5, delete(b"a", None)), applied(5));
    assert_eq!(
        at(1, 6, put(b"a", b"1", None)),
        ApplyResult::Rejected(RejectReason::StaleSequence { highest: 2, got: 1 })
    );
    assert_eq!(
        at(0, 7, put(b"a", b"1", None)),
        ApplyResult::Rejected(RejectReason::StaleSequence { highest: 2, got: 0 })
    );
    let refused = at(3, 8, delete(b"a", Some(IfVersion::Absent)));
    assert_eq!(refused, ApplyResult::Rejected(RejectReason::Malformed));
    assert_eq!(refused.mutation(), None);
    assert_eq!(sm.get(&table, b"a"), Ok(None));
}

#[test]
fn conditions_decide() {
    let sm = DataStateMachine::new(GROUP);
    let mut table = StateTable::new();
    let mut at = |seq: u64, index: u64, op: DataOp| {
        sm.apply(&mut table, &request(9, seq, op), index).unwrap()
    };
    assert_eq!(
        at(1, 1, put(b"a", b"1", Some(IfVersion::Number(5)))),
        ApplyResult::Decided(MutationResult::ConditionFailed { current: KeyPresence::Absent })
    );
    assert_eq!(at(2, 2, put(b"a", b"1", Some(IfVersion::Absent))), applied(2));
    assert_eq!(
        at(3, 3, put(b"a", b"2", Some(IfVersion::Absent))),
        ApplyResult::Decided(MutationResult::ConditionFailed {
            current: KeyPresence::Present { version: 2 }
        })
    );
    assert_eq!(at(4, 4, delete(b"a", Some(IfVersion::Number(2)))), applied(4));
}

#[test]
fn unreadable_records_stop_the_group() {
    let mut table = StateTable::new();
    let bad = vec![StateMutation::Put { key: user_key(b"a"), value: vec![1] }];
    table.write_state(&bad);
    let sm = DataStateMachine::new(GROUP);
    assert!(matches!(sm.get(&table, b"a"), Err(Error::Codec(_))));
    let req = request(1, 1, put(b"a", b"1", Some(IfVersion::Absent)));
    assert!(sm.apply(&mut table, &req, 1).is_err());
}

#[test]
fn digests_follow_the_canonical_bytes() {
    let op = put(b"k", b"v", None);
    assert_eq!(digest(&op), digest(&put(b"k", b"v", None)));
    assert_ne!(digest(&op), digest(&put(b"k", b"w", None)));
    assert_ne!(digest(&op), digest(&delete(b"k", None)));
    let serialized = bincode::serialize(&(1u32, 1u64, b'k', 0u8)).unwrap();
    assert_eq!(digest(&delete(b"k", None)), xxhash_rust::xxh3::xxh3_128(&serialized));
}

#[test]
fn log_rows_are_keyed_by_index() {
    assert_eq!(entry_index(&entry_key(0)), Some(0));
    assert_eq!(entry_index(&entry_key(77)), Some(77));
    assert_eq!(entry_index(&entry_key(u64::MAX)), Some(u64::MAX));
    assert_eq!(entry_index(&vote_key()), None);
    assert_eq!(entry_index(&purged_key()), None);
    assert_eq!(entry_index(&committed_key()), None);
    assert!(entry_key(255) < entry_key(256));
    assert_eq!(range_of(LogBound::Included(3), LogBound::Excluded(9)), (3, 9));
    assert_eq!(range_of(LogBound::Excluded(3), LogBound::Included(9)), (4, 10));
    assert_eq!(range_of(LogBound::Unbounded, LogBound::Unbounded), (0, u64::MAX));
    let rows: Vec<(Vec<u8>, Vec<u8>)> =
        (3..8).map(|i| (entry_key(i), Vec::new())).collect();
    assert_eq!(covered_rows(&rows, 6), 3);
    assert_eq!(covered_rows(&rows, 100), 5);
    assert_eq!(covered_rows(&rows, 1), 0);
}

#[test]
fn log_writes_name_their_rows() {
    let store = RocksLogStore::new(GROUP);
    assert_eq!(store.group(), GROUP);
    let (writes, bytes) = store.append(&vec![
        EncodedEntry { log_id: log_id(4), bytes: vec![1, 2, 3] },
        EncodedEntry { log_id: log_id(5), bytes: vec![4] },
    ]);
    assert_eq!(bytes, 22);
    match &writes[..] {
        [LogWrite::Put { key: a, value: v }, LogWrite::Put { key: b, value: w }] => {
            assert_eq!((a, v), (&entry_key(4), &vec![1, 2, 3]));
            assert_eq!((b, w), (&entry_key(5), &vec![4]));
        }
        _ => panic!("two entries are two rows"),
    }
    match &store.truncate(log_id(5))[..] {
        [LogWrite::DeleteRange { from, to }, LogWrite::Delete { key }] => {
            assert_eq!((from, to), (&entry_key(5), &entry_key(u64::MAX)));
            assert_eq!(key, &entry_key(u64::MAX));
        }
        _ => panic!("a range and the last row"),
    }
    match &store.purge(Some(log_id(5)), log_id(5)).unwrap()[..] {
        [LogWrite::Put { key, value }, LogWrite::DeleteRange { from, to }, LogWrite::Delete { key: last }] =>
        {
            assert_eq!(key, &purged_key());
            assert_eq!(value, &bincode::serialize(&(1u64, 1u64, 5u64)).unwrap());
            assert_eq!((from, to), (&entry_key(0), &entry_key(5)));
            assert_eq!(last, &entry_key(5));
        }
        _ => panic!("the marker goes first"),
    }
    let state = store.get_log_state(Some(log_id(3)), None);
    assert_eq!((state.last_purged, state.last), (Some(log_id(3)), Some(log_id(3))));
    let state = store.get_log_state(Some(log_id(3)), Some(log_id(7)));
    assert_eq!(state.last, Some(log_id(7)));
    assert_eq!(store.read_committed(None), None);
    assert_eq!(store.read_committed(Some(None)), None);
    assert_eq!(store.read_committed(Some(Some(log_id(7)))), Some(log_id(7)));
}

#[test]
fn links_fail_as_they_are_told() {
    let mut f = Faults::new();
    let plain = Delivery::Delivered { delay: None, twice: false };
    assert_eq!(deliver(&mut f, 1, 2), plain);
    f.block(1, 2);
    assert!(f.is_blocked(1, 2));
    assert!(!f.is_blocked(2, 1));
    assert_eq!(deliver(&mut f, 1, 2), Delivery::Dropped);
    f.unblock(1, 2);
    f.duplicate(1, 2);
    f.delay(1, 2, Duration::from_millis(7));
    assert_eq!(
        deliver(&mut f, 1, 2),
        Delivery::Delivered { delay: Some(Duration::from_millis(7)), twice: true }
    );
    f.heal();
    assert!(!f.is_duplicated(1, 2));
    f.isolate(1, &[2, 3]);
    for (a, b) in [(1, 2), (2, 1), (1, 3), (3, 1)] {
        assert!(f.is_blocked(a, b));
    }
    assert!(!f.is_blocked(2, 3));
    assert_eq!(link_down_text(1, 2), "link 1->2 is partitioned");
    assert_eq!(target_gone_text(4), "node 4 not registered");
}

#[test]
fn reordered_calls_alternate() {
    let mut f = Faults::new();
    f.reorder(1, 2);
    let held = Some(Duration::from_millis(40));
    assert_eq!(f.delay_for(1, 2), held);
    assert_eq!(f.delay_for(1, 2), None);
    assert_eq!(f.delay_for(1, 2), held);
    f.delay(1, 2, Duration::from_millis(2));
    assert_eq!(f.delay_for(1, 2), Some(Duration::from_millis(2)));
    assert_eq!(f.delay_for(1, 2), Some(Duration::from_millis(42)));
}

fn view(leader: Option<u64>, ready: bool, applied: Option<u64>) -> ReplicaView {
    ReplicaView {
        node_id: 2,
        voters: vec![1, 2, 3],
        leader,
        recovery_ready: ready,
        applied,
    }
}

#[test]
fn reads_are_answered_by_fresh_replicas() {
    let stale = |min| Consistency::Stale { min_version: min };
    let v = view(Some(1), true, Some(5));
    assert_eq!(begin_read(&v, None, Consistency::Linearizable).unwrap(), ReadStep::Confirm);
    assert_eq!(begin_read(&v, None, stale(None)).unwrap(), ReadStep::Local);
    assert_eq!(begin_read(&v, None, stale(Some(5))).unwrap(), ReadStep::Local);
    assert_eq!(
        begin_read(&v, None, stale(Some(6))).unwrap(),
        ReadStep::TooStale { leader: Some(1) }
    );
    assert_eq!(
        begin_read(&view(Some(1), false, Some(5)), None, stale(None)).unwrap(),
        ReadStep::TooStale { leader: Some(1) }
    );
    assert_eq!(
        begin_read(&view(None, true, Some(5)), None, stale(None)).unwrap(),
        ReadStep::TooStale { leader: None }
    );
    assert_eq!(begin_read(&view(Some(2), true, None), None, stale(None)).unwrap(), ReadStep::Confirm);
    let mut learner = view(Some(1), true, Some(5));
    learner.voters = vec![1, 3];
    assert_eq!(
        begin_read(&learner, None, stale(None)).unwrap(),
        ReadStep::TooStale { leader: Some(1) }
    );
}

#[test]
fn confirmations_decide_reads() {
    let v = view(Some(2), true, Some(5));
    let strict = Consistency::Linearizable;
    let stale = Consistency::Stale { min_version: Some(9) };
    assert_eq!(
        continue_read(&v, strict, LeaderCheck::Confirmed(None)),
        Ok(ReadStep::Local)
    );
    assert_eq!(
        continue_read(&v, strict, LeaderCheck::Forward(Some(3))),
        Ok(ReadStep::NotLeader { leader: Some(3) })
    );
    assert_eq!(
        continue_read(&v, strict, LeaderCheck::Failed("lost".into())),
        Err(Error::Raft("lost".to_string()))
    );
    assert_eq!(
        continue_read(&v, stale, LeaderCheck::Confirmed(None)),
        Ok(ReadStep::TooStale { leader: Some(2) })
    );
    let forgot = view(None, false, Some(5));
    assert_eq!(
        continue_read(&forgot, stale, LeaderCheck::Failed("lost".into())),
        Ok(ReadStep::TooStale { leader: Some(2) })
    );
    assert_eq!(
        continue_read(&v, stale, LeaderCheck::Forward(None)),
        Ok(ReadStep::TooStale { leader: None })
    );
    assert_eq!(
        continue_read(&v, stale, LeaderCheck::Failed("lost".into())),
        Ok(ReadStep::TooStale { leader: Some(2) })
    );
}

#[test]
fn searches_ask_the_leader() {
    assert_eq!(
        search_relaxed(&view(Some(2), true, None), None).unwrap(),
        SearchBarrier::Ready(None)
    );
    assert_eq!(
        search_relaxed(&view(Some(2), false, None), None).unwrap(),
        SearchBarrier::NotLeader { leader: None }
    );
    assert_eq!(
        search_relaxed(&view(Some(1), true, None), None).unwrap(),
        SearchBarrier::NotLeader { leader: Some(1) }
    );
    assert_eq!(
        search_strict(None, LeaderCheck::Confirmed(Some(log_id(4)))),
        Ok(SearchBarrier::Ready(Some(log_id(4))))
    );
    assert_eq!(
        search_strict(None, LeaderCheck::Failed("lost".into())),
        Err(Error::Raft("search ReadIndex: lost".to_string()))
    );
}

#[test]
fn eventual_search_remains_leader_authorized() {
    let replica = |node_id: u64| ReplicaView {
        node_id,
        voters: vec![1, 2, 3],
        leader: Some(1),
        recovery_ready: true,
        applied: Some(4),
    };
    assert!(matches!(
        search_strict(None, LeaderCheck::Confirmed(Some(log_id(4)))),
        Ok(SearchBarrier::Ready(_))
    ));
    assert_eq!(search_relaxed(&replica(1), None).unwrap(), SearchBarrier::Ready(None));
    for follower in [2, 3] {
        assert!(matches!(
            search_relaxed(&replica(follower), None).unwrap(),
            SearchBarrier::NotLeader { .. }
        ));
    }
}

#[test]
fn writes_and_groups() {
    assert_eq!(require_data_group(GROUP), Ok(()));
    assert_eq!(
        require_data_group(GroupId::Meta),
        Err(Error::Config("PartitionNode requires a data-group id".to_string()))
    );
    assert_eq!(
        write_outcome(WriteReport::Committed { log_id: log_id(3), result: applied(3) }),
        Ok(WriteOutcome::Applied(applied(3)))
    );
    assert_eq!(
        write_outcome(WriteReport::Forward(None)),
        Ok(WriteOutcome::NotLeader { leader: None })
    );
    assert_eq!(
        write_outcome(WriteReport::Failed("x".into())),
        Err(Error::Raft("x".to_string()))
    );
}

fn leadership() -> Leadership {
    Leadership {
        leader: Some(1),
        term: 4,
        membership_log_id: Some(log_id(2)),
        voters: vec![1, 2, 3],
    }
}

#[test]
fn recovery_fence_rejects_leadership_and_membership_races() {
    let check = LeaderCheck::Confirmed(Some(log_id(9)));
    let RecoveryFenceReply::Fence(fence) = finish_fence(1, GROUP, 2, check, leadership()) else {
        panic!("leader did not issue recovery fence");
    };
    let replaced = Leadership { leader: Some(3), term: 5, ..leadership() };
    assert!(apply_recovery_fence(None, false, 2, GROUP, &fence, &replaced).is_err());
    let retained = Leadership {
        membership_log_id: Some(log_id(12)),
        voters: vec![1, 2],
        ..leadership()
    };
    assert!(apply_recovery_fence(None, false, 2, GROUP, &fence, &retained).is_err());
    assert!(validate_recovery_fence(2, GROUP, &fence, &retained).is_err());
}

#[test]
fn fences_hold_while_nothing_changes() {
    assert_eq!(begin_fence(1, None, Some(1)), None);
    assert_eq!(
        begin_fence(1, None, Some(2)),
        Some(RecoveryFenceReply::NotLeader { leader: Some(2) })
    );
    assert_eq!(
        begin_fence(1, Some(&Error::Raft("closed".to_string())), Some(1)),
        Some(RecoveryFenceReply::Rejected("raft: closed".to_string()))
    );
    let target = Some(log_id(9));
    let issued = finish_fence(1, GROUP, 2, LeaderCheck::Confirmed(target), leadership());
    let fence = RecoveryFence {
        leader: 1,
        leader_term: 4,
        membership_log_id: Some(log_id(2)),
        voters: vec![1, 2, 3],
        target,
    };
    assert_eq!(issued, RecoveryFenceReply::Fence(fence.clone()));
    assert_eq!(validate_recovery_fence(2, GROUP, &fence, &leadership()), Ok(()));

    let apply = |ready, now: &Leadership| apply_recovery_fence(None, ready, 2, GROUP, &fence, now);
    assert_eq!(apply(true, &leadership()), Ok(FenceStep::Done));
    assert_eq!(apply(false, &leadership()), Ok(FenceStep::Wait(log_id(9))));
    let mut later = leadership();
    later.term = 5;
    assert!(apply(false, &later).is_err());
    assert_eq!(
        validate_recovery_fence(2, GROUP, &fence, &later).unwrap_err(),
        Error::Raft(
            "recovery fence leader changed: expected 1 term 4, observed Some(1) term 5".to_string()
        )
    );
    let mut later = leadership();
    later.voters = vec![1, 2, 4];
    assert_eq!(
        validate_recovery_fence(2, GROUP, &fence, &later).unwrap_err(),
        Error::Raft("recovery fence membership changed while catch-up was in flight".to_string())
    );
    assert_eq!(
        validate_recovery_fence(9, GROUP, &fence, &leadership()).unwrap_err(),
        Error::Raft("node 9 is not a committed voter of Data(0)".to_string())
    );
    assert_eq!(
        finish_fence(1, GROUP, 9, LeaderCheck::Confirmed(target), leadership()),
        RecoveryFenceReply::Rejected("node 9 is not a committed voter of Data(0)".to_string())
    );
    assert_eq!(
        finish_fence(3, GROUP, 2, LeaderCheck::Confirmed(target), leadership()),
        RecoveryFenceReply::NotLeader { leader: Some(1) }
    );
    assert_eq!(
        finish_fence(1, GROUP, 2, LeaderCheck::Failed("lost".into()), leadership()),
        RecoveryFenceReply::Rejected("lost".to_string())
    );
}

#[test]
fn the_table_remembers_what_was_applied() {
    let mut table = StateTable::new();
    assert_eq!(table.last_applied(), None);
    let put = vec![StateMutation::Put { key: vec![b'u', 2], value: vec![9] }];
    table.apply_state(&put, LogId::new(0, 4));
    assert_eq!(table.last_applied(), Some(LogId::new(0, 4)));
    let rows = table.scan();
    let mut copy = StateTable::new();
    copy.install(&rows);
    assert_eq!(copy.scan(), rows);
    assert_eq!(log_id(7).to_text(), "T1-N1-7");
    assert_eq!(log_id(7).position(), LogId::new(1, 7));
}

#[test]
fn lifting_the_faults_reaches_all_who_share_them() {
    let faults = Arc::new(Mutex::new(Faults::default()));
    let other = faults.clone();
    {
        let mut f = faults.lock().unwrap();
        f.isolate(1, &[2, 3]);
        f.duplicate(2, 3);
        f.reorder(2, 3);
        f.delay(3, 2, Duration::from_nanos(1));
    }
    assert!(other.lock().unwrap().is_blocked(3, 1));
    assert_eq!(other.lock().unwrap().delay_for(3, 2), Some(Duration::from_nanos(1)));
    faults.lock().unwrap().heal();
    for (a, b) in [(1, 2), (2, 1), (1, 3), (3, 1), (2, 3), (3, 2)] {
        let mut f = other.lock().unwrap();
        assert!(!f.is_blocked(a, b));
        assert!(!f.is_duplicated(a, b));
        assert_eq!(f.delay_for(a, b), None);
        assert_eq!(f.delay_for(a, b), None);
    }
}

#[test]
fn short_and_long_spans_are_kept() {
    let mut f = Faults::new();
    f.delay(1, 2, Duration::from_nanos(999_999));
    assert_eq!(f.delay_for(1, 2).unwrap().as_nanos(), 999_999);
    assert_eq!(Duration::from_nanos(999_999).as_millis(), 0);
    assert!(!Duration::from_nanos(1).is_zero());
    let longest = Duration::from_secs(u64::MAX).saturating_add(Duration::from_nanos(999_999_999));
    assert_eq!(longest.as_nanos(), dal::time::MAX_NANOS);
    f.delay(1, 2, longest);
    f.reorder(1, 2);
    assert_eq!(f.delay_for(1, 2), Some(longest));
}

#[test]
fn a_batch_collapses_to_the_last_change_of_each_key() {
    let put = |k: u8, v: u8| StateMutation::Put { key: vec![k], value: vec![v] };
    let del = |k: u8| StateMutation::Delete { key: vec![k] };
    let mut table = StateTable::new();
    table.apply_state(&vec![put(9, 1), put(2, 8)], LogId::new(1, 1));
    let mut overlay = StateOverlay::new(&table);
    overlay.stage(&vec![put(1, 1), put(2, 2), del(1)]);
    assert_eq!(overlay.read_state(&[1]), None);
    overlay.stage(&vec![put(3, 3), put(2, 4), put(1, 5), del(3)]);
    assert_eq!(overlay.read_state(&[2]), Some(vec![4]));
    let out = overlay.into_mutations();
    assert_eq!(out, vec![put(1, 5), put(2, 4), del(3)]);
    let mut backwards = out.clone();
    backwards.reverse();
    table.apply_state(&backwards, LogId::new(1, 2));
    assert_eq!(table.read_state(&[1]), Some(vec![5]));
    assert_eq!(table.read_state(&[2]), Some(vec![4]));
    assert_eq!(table.read_state(&[3]), None);
    assert_eq!(table.read_state(&[9]), Some(vec![1]));
}

#[test]
fn a_backward_scan_begins_behind_the_entries() {
    assert_eq!(scan_end_key(), vec![0x02]);
    assert!(entry_key(u64::MAX) < scan_end_key());
}

fn refused<T>(text: &str) -> Result<T, Error> {
    Err(Error::Raft(text.to_string()))
}

#[test]
fn a_given_up_group_is_not_served() {
    let mut records = Storage::new(None);
    let none = "group data-0 has neither a bootstrap marker nor a learner admission";
    assert_eq!(records.require_serving(GROUP, true), refused(none));
    let members = vec![1, 2, 3];
    records.add_bootstrap_group(BootstrapGroup { cluster_id: 7, group: GROUP, members });
    assert_eq!(records.require_serving(GROUP, true), Ok(()));
    assert_eq!(
        records.require_serving(GROUP, false),
        refused("storage of group data-0 has failed")
    );
    records.reclaim_group(GROUP);
    let gone = "group data-0 was given up on this node";
    assert_eq!(records.require_serving(GROUP, true), refused(gone));
    assert_eq!(records.authorize_group_start(GROUP), refused(gone));

    let closed = records.require_serving(GROUP, true).err();
    let closed = closed.as_ref();
    // A follower and a leader that would answer everything if they were served.
    let (follower, leader) = (view(Some(1), true, Some(9)), view(Some(2), true, Some(9)));
    let stale = Consistency::Stale { min_version: None };
    assert_eq!(begin_read(&follower, closed, stale), refused(gone));
    assert_eq!(begin_read(&leader, closed, Consistency::Linearizable), refused(gone));
    assert_eq!(search_relaxed(&leader, closed), refused(gone));
    assert_eq!(search_strict(closed, LeaderCheck::Confirmed(None)), refused(gone));
    let write = request(7, 1, put(b"k", b"v", None));
    assert_eq!(begin_write(closed, write.clone()), refused(gone));
    assert_eq!(
        confirmed_committed_config(closed, Ok(None), None, vec![1, 2, 3]),
        refused(gone)
    );
    assert_eq!(
        begin_fence(2, closed, Some(2)),
        Some(RecoveryFenceReply::Rejected(format!("raft: {gone}")))
    );
    let now = leadership();
    let fence = RecoveryFence {
        leader: 1,
        leader_term: now.term,
        membership_log_id: now.membership_log_id,
        voters: now.voters.clone(),
        target: None,
    };
    assert_eq!(apply_recovery_fence(closed, true, 2, GROUP, &fence, &now), refused(gone));

    // A new admission lets it be served again.
    let admission = LearnerAdmission { cluster_id: 7, group: GROUP, plan_id: 4 };
    records.record_verified_learner_admission(admission);
    assert_eq!(records.require_serving(GROUP, true), Ok(()));
    assert_eq!(begin_read(&follower, None, stale), Ok(ReadStep::Local));
    assert_eq!(begin_write(None, write.clone()), Ok(write));
}

#[test]
fn recovery_opens_on_what_is_committed() {
    let at = Some(log_id(4));
    let opens = |target| Recovery::Opens { target };
    let confirmed = LeaderCheck::Confirmed(at);
    assert_eq!(recovery_after_check(false, &confirmed), opens(at));
    assert_eq!(recovery_after_check(true, &confirmed), Recovery::Stays);
    assert_eq!(recovery_after_check(false, &LeaderCheck::Forward(Some(1))), Recovery::Stays);
    assert_eq!(
        recovery_after_check(false, &LeaderCheck::Failed("lost".into())),
        Recovery::Stays
    );
    let written = WriteReport::Committed { log_id: log_id(4), result: applied(4) };
    assert_eq!(recovery_after_write(false, &written), opens(at));
    assert_eq!(recovery_after_write(true, &written), Recovery::Stays);
    assert_eq!(recovery_after_write(false, &WriteReport::Forward(None)), Recovery::Stays);
    // A leader whose state was closed answers a stale read once it is confirmed.
    assert_eq!(
        continue_read(
            &view(Some(2), false, Some(5)),
            Consistency::Stale { min_version: Some(5) },
            confirmed
        ),
        Ok(ReadStep::Local)
    );
    let now = leadership();
    let mut fence = RecoveryFence {
        leader: now.leader.unwrap(),
        leader_term: now.term,
        membership_log_id: now.membership_log_id,
        voters: now.voters.clone(),
        target: at,
    };
    assert_eq!(complete_recovery_fence(false, 2, GROUP, &fence, &now), Ok(opens(at)));
    assert_eq!(complete_recovery_fence(true, 2, GROUP, &fence, &now), Ok(Recovery::Stays));
    fence.leader_term += 1;
    assert!(complete_recovery_fence(false, 2, GROUP, &fence, &now).is_err());
}

#[test]
fn only_a_confirmed_leader_reports_its_membership() {
    let voters = || vec![1, 2, 3];
    assert_eq!(
        confirmed_committed_config(None, Ok(Some(log_id(9))), Some(log_id(4)), voters()),
        Ok((Some(LogId::new(1, 4)), voters()))
    );
    assert_eq!(
        confirmed_committed_config(None, Err("moved".into()), Some(log_id(4)), voters()),
        refused("confirm committed membership: moved")
    );
}

#[test]
fn purge_waits_for_the_same_materialized_prefix_to_be_durable() {
    let store = RocksLogStore::new(GroupId::Data(4));
    let target = log_id(6);
    assert!(store.purge(None, target).is_none());
    assert!(store.purge(Some(log_id(5)), target).is_none());
    assert!(store.purge(Some(target), target).is_some());
    assert!(store.purge(Some(log_id(7)), target).is_some());
}

#[test]
fn snapshot_waits_until_its_visible_applied_prefix_is_durable() {
    let mut sm = machine();
    assert!(matches!(sm.get_current_snapshot(None), CurrentSnapshot::Empty));
    assert_eq!(sm.build_snapshot(None).unwrap().snapshot_id, "empty");
    sm.apply_coalesced(&vec![entry(10, request(7, 1, put(b"k", b"v", None)))]).unwrap();
    assert!(sm.build_snapshot(None).is_none());
    assert!(sm.build_snapshot(Some(log_id(9))).is_none());
    assert!(matches!(sm.get_current_snapshot(Some(log_id(9))), CurrentSnapshot::Wait));
    let snapshot = sm.build_snapshot(Some(log_id(10))).unwrap();
    assert_eq!(snapshot.last_log_id, Some(log_id(10)));
    match sm.get_current_snapshot(Some(log_id(10))) {
        CurrentSnapshot::Taken(again) => assert_eq!(again.data, snapshot.data),
        _ => panic!("the state is durable"),
    }
}
