//! The write path's counters.
use dal::perf::{
    timer, transport_profile_class, write_path_enabled, RocksCounters, TransportProfileClass,
    WritePath, WriteStage, STAGES,
};
use dal::transport::MsgType;
use dal::types::GroupId;

#[test]
fn nothing_is_recorded_unless_asked_for() {
    let mut off = WritePath::new(false);
    off.record_duration(WriteStage::WalFlush, 5);
    off.record_apply_batch(1, 2, 3);
    assert!(off.write_path_report().is_none());
    assert!(!write_path_enabled(None));
    assert!(write_path_enabled(Some(&"1".to_string())));
}

#[test]
fn stages_are_counted() {
    let mut on = WritePath::new(true);
    on.record_duration(WriteStage::WalFlush, 5);
    on.record_duration(WriteStage::WalFlush, 3);
    let t = timer(&on, WriteStage::LogEncode, Some(100));
    on.stop(t, 140);
    on.record_durability_batch(2, 1, 50);
    on.record_committed_marker_folded();
    on.record_apply_batch(4, 6, 70);
    on.record_apply_batch(2, 1, 30);
    on.record_envelope(MsgType::ClientOp, true, 9, 11);
    on.record_envelope(MsgType::RaftAppend, false, 8, 12);
    let report = on.write_path_report().unwrap();
    let flush = report.stages.iter().find(|s| s.stage == WriteStage::WalFlush).unwrap();
    assert_eq!(
        (flush.counters.calls, flush.counters.total_ns, flush.counters.max_ns),
        (2, 8, 5)
    );
    let encode = report.stages.iter().find(|s| s.stage == WriteStage::LogEncode).unwrap();
    assert_eq!(encode.counters.total_ns, 40);
    let d = report.durability.unwrap();
    assert_eq!((d.log_writes, d.state_writes, d.writes, d.max_batch), (2, 1, 3, 3));
    let a = report.apply.unwrap();
    assert_eq!((a.batches, a.entries, a.max_entries, a.mutations), (2, 6, 4, 7));
    assert_eq!((a.logical_bytes, a.committed_markers_folded), (100, 1));
    let e = report.envelopes.unwrap();
    assert_eq!((e.client_encoded, e.raft_decoded), (11, 12));
    on.reset_write_path();
    let report = on.write_path_report().unwrap();
    assert!(report.stages.is_empty());
    assert!(report.durability.is_none() && report.apply.is_none() && report.envelopes.is_none());
}

#[test]
fn stages_have_places() {
    for i in 0..STAGES {
        assert_eq!(WriteStage::from_index(i).index(), i);
    }
    assert_eq!(WriteStage::WalFlush.name(), "WAL flush_wal(true)");
    let class = |msg_type, group| transport_profile_class(msg_type, group);
    assert_eq!(
        class(MsgType::ClientOp, GroupId::Meta),
        Some(TransportProfileClass::Client)
    );
    assert_eq!(
        class(MsgType::RaftAppend, GroupId::Data(1)),
        Some(TransportProfileClass::DataRaftAppend)
    );
    assert_eq!(class(MsgType::RaftAppend, GroupId::Meta), None);
    assert_eq!(
        TransportProfileClass::DataRaftAppend
            .stage(WriteStage::ClientRouterSend, WriteStage::RaftRouterSend),
        WriteStage::RaftRouterSend
    );
}

#[test]
fn engine_counters_are_subtracted() {
    let at = |n| RocksCounters { wal_syncs: n, wal_bytes: 10 * n, stall_micros: 0 };
    assert_eq!(at(5).saturating_sub(at(2)), at(3));
    assert_eq!(at(2).saturating_sub(at(5)), RocksCounters::default());
    assert_eq!(at(2).plus(at(3)), at(5));
}
