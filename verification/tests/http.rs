//! The admin plane's health and the node's report.
use dal::partition::raft_types::RaftLogId;
use dal::runtime::http::{
    health, ClusterStatus, MetaStatus, PartitionStatus, PlanStatus, Role,
};
use dal::runtime::status::{
    meta_status, partition_status, plan_status, retained_log_entries, sort_by_partition, status,
    MaterializedStatus, ReplicaReport,
};
use dal::types::{ClusterConfig, HashSpec, LogId, MovePlan, Placement};

fn log_id(index: u64) -> RaftLogId {
    RaftLogId { term: 1, node_id: 1, index }
}

fn materialized() -> MaterializedStatus {
    MaterializedStatus {
        visible: Some(log_id(10)),
        durable: Some(log_id(9)),
        pending_entries: 1,
        pending_bytes: 128,
        oldest_pending_ms: Some(4),
        last_flush_latency_ms: Some(3),
        max_flush_latency_ms: 7,
        flush_failures: 0,
        recovery_ready: true,
        recovery_epoch: 2,
        recovery_target: Some(log_id(10)),
        recovery_attempts: 1,
        recovery_duration_ms: Some(5),
        replayed_entries: 2,
        purge_waits: 1,
        purge_wait_ms: 2,
        snapshot_waits: 1,
        snapshot_wait_ms: 3,
        failed: false,
    }
}

fn replica(partition: u16) -> ReplicaReport {
    ReplicaReport {
        partition,
        leader: Some(7),
        applied: Some(10),
        materialized: materialized(),
        last_log_index: Some(10),
        committed: vec![7, 8, 9],
        serving: true,
        plan: None,
    }
}

fn stub_status() -> ClusterStatus {
    ClusterStatus {
        node_id: 7,
        cluster_id: "0xda1".into(),
        protocol_version: 1,
        meta: Some(MetaStatus {
            is_leader: true,
            leader: Some(7),
            applied: Some(42),
            voters: vec![7, 8, 9],
        }),
        partitions: vec![PartitionStatus {
            partition: 0,
            role: Role::Leader,
            leader: Some(7),
            applied: Some(10),
            materialized_visible: Some(10),
            materialized_durable: Some(9),
            materialized_pending_entries: 1,
            materialized_pending_bytes: 128,
            materialized_oldest_pending_ms: Some(4),
            materialized_last_flush_latency_ms: Some(3),
            materialized_max_flush_latency_ms: 7,
            materialized_flush_failures: 0,
            materialized_recovery_ready: true,
            materialized_recovery_epoch: 2,
            materialized_recovery_target: Some(10),
            materialized_recovery_attempts: 1,
            materialized_recovery_duration_ms: Some(5),
            materialized_replayed_entries: 2,
            materialized_purge_waits: 1,
            materialized_purge_wait_ms: 2,
            materialized_snapshot_waits: 1,
            materialized_snapshot_wait_ms: 3,
            materialized_retained_log_entries: 1,
            materialized_failed: false,
            committed_voters: vec![7, 8, 9],
            serving: true,
            plan: None,
        }],
        directory: Vec::new(),
    }
}

#[test]
fn health_returns_ok() {
    let h = health(&stub_status());
    assert_eq!((h.code, h.text), (200, "ok"));
}

#[test]
fn health_fails_closed_with_materialization_failure() {
    let mut failed = stub_status();
    failed.partitions[0].materialized_failed = true;
    let h = health(&failed);
    assert_eq!((h.code, h.text), (503, "failed"));
}

#[test]
fn a_report_is_assembled_from_local_state() {
    let cluster = ClusterConfig {
        cluster_id: 0xda1,
        protocol_version: 1,
        p: 1,
        r: 3,
        hash_spec: HashSpec::CANONICAL,
    };
    let got = status(
        7,
        &cluster,
        Some(meta_status(7, Some(7), Some(42), vec![7, 8, 9])),
        vec![partition_status(7, replica(0))],
        Vec::new(),
    );
    assert_eq!(got, stub_status());
}

#[test]
fn roles_follow_leadership_and_membership() {
    assert_eq!(partition_status(7, replica(0)).role, Role::Leader);
    assert_eq!(partition_status(8, replica(0)).role, Role::Voter);
    assert_eq!(partition_status(6, replica(0)).role, Role::Learner);
    assert!(!meta_status(8, Some(7), None, Vec::new()).is_leader);
    assert!(!meta_status(8, None, None, Vec::new()).is_leader);
}

#[test]
fn retained_entries_are_counted_from_the_durable_one() {
    assert_eq!(retained_log_entries(Some(10), Some(4)), 6);
    assert_eq!(retained_log_entries(Some(4), Some(10)), 0);
    assert_eq!(retained_log_entries(Some(4), None), 5);
    assert_eq!(retained_log_entries(Some(u64::MAX), None), u64::MAX);
    assert_eq!(retained_log_entries(None, Some(3)), 0);
}

#[test]
fn partitions_are_reported_in_order() {
    let list = [5u16, 1, 3, 0].map(|p| partition_status(7, replica(p))).to_vec();
    let order: Vec<u16> = sort_by_partition(list).iter().map(|s| s.partition).collect();
    assert_eq!(order, vec![0, 1, 3, 5]);
}

#[test]
fn plans_are_shown() {
    let mut p = Placement {
        voters: vec![1, 2, 3],
        voters_log_id: LogId::new(1, 1),
        move_plan: None,
    };
    assert_eq!(plan_status(None), None);
    assert_eq!(plan_status(Some(&p)), None);
    p.move_plan = Some(MovePlan { plan_id: 6, target_voters: vec![1, 2, 4], aborting: true });
    assert_eq!(plan_status(Some(&p)), Some(PlanStatus { plan_id: 6, aborting: true }));
}
