//! A node's report of itself, from local state alone.
use crate::partition::raft_types::RaftLogId;
use crate::runtime::config_file::cluster_id_hex;
use crate::runtime::http::{ClusterStatus, MetaStatus, PartitionStatus, PlanStatus, Role};
use crate::sets::holds;
use crate::text::hex;
use crate::types::{ClusterConfig, NodeDirectoryEntry, NodeId, Placement};
use vstd::multiset::Multiset;
use vstd::prelude::*;

verus! {

/// How far a replica's state has got, and what it waits for.
#[derive(Debug, Clone, Copy, PartialEq, Eq, Structural)]
pub struct MaterializedStatus {
    pub visible: Option<RaftLogId>,
    pub durable: Option<RaftLogId>,
    pub pending_entries: usize,
    pub pending_bytes: usize,
    pub oldest_pending_ms: Option<u64>,
    pub last_flush_latency_ms: Option<u64>,
    pub max_flush_latency_ms: u64,
    pub flush_failures: u64,
    pub recovery_ready: bool,
    pub recovery_epoch: u64,
    pub recovery_target: Option<RaftLogId>,
    pub recovery_attempts: u64,
    pub recovery_duration_ms: Option<u64>,
    pub replayed_entries: u64,
    pub purge_waits: u64,
    pub purge_wait_ms: u64,
    pub snapshot_waits: u64,
    pub snapshot_wait_ms: u64,
    pub failed: bool,
}

/// The place of a position in the log.
pub open spec fn index_of(id: Option<RaftLogId>) -> Option<u64> {
    match id {
        Some(id) => Some(id.index),
        None => None,
    }
}

fn log_index(id: Option<RaftLogId>) -> (i: Option<u64>)
    ensures
        i == index_of(id),
{
    match id {
        Some(id) => Some(id.index),
        None => None,
    }
}

/// How many log entries are kept beyond what is durable.
pub open spec fn retained(last: Option<u64>, durable: Option<u64>) -> nat {
    match (last, durable) {
        (Some(last), Some(durable)) => if last >= durable {
            (last - durable) as nat
        } else {
            0
        },
        (Some(last), None) => if last == u64::MAX {
            u64::MAX as nat
        } else {
            (last + 1) as nat
        },
        (None, _) => 0,
    }
}

/// Count the log entries that are kept beyond what is durable.
pub fn retained_log_entries(last: Option<u64>, durable: Option<u64>) -> (n: u64)
    ensures
        n == retained(last, durable),
{
    match (last, durable) {
        (Some(last), Some(durable)) => last.saturating_sub(durable),
        (Some(last), None) => last.saturating_add(1),
        (None, _) => 0,
    }
}

/// The plan that a placement holds, as the report shows it.
pub fn plan_status(placement: Option<&Placement>) -> (r: Option<PlanStatus>)
    ensures
        r == match placement {
            Some(p) => match p.move_plan {
                Some(plan) => Some(
                    PlanStatus { plan_id: plan.plan_id, aborting: plan.aborting },
                ),
                None => None,
            },
            None => None,
        },
{
    match placement {
        Some(p) => match &p.move_plan {
            Some(plan) => Some(PlanStatus { plan_id: plan.plan_id, aborting: plan.aborting }),
            None => None,
        },
        None => None,
    }
}

/// What a node knows of one of its replicas.
pub struct ReplicaReport {
    pub partition: u16,
    pub leader: Option<NodeId>,
    pub applied: Option<u64>,
    pub materialized: MaterializedStatus,
    pub last_log_index: Option<u64>,
    /// The committed voters, in rising order.
    pub committed: Vec<NodeId>,
    pub serving: bool,
    pub plan: Option<PlanStatus>,
}

/// Report on one replica.
pub fn partition_status(node: NodeId, report: ReplicaReport) -> (s: PartitionStatus)
    ensures
        s.partition == report.partition,
        s.role == (if report.leader == Some(node) {
            Role::Leader
        } else if report.committed@.contains(node) {
            Role::Voter
        } else {
            Role::Learner
        }),
        s.leader == report.leader,
        s.applied == report.applied,
        s.materialized_visible == index_of(report.materialized.visible),
        s.materialized_durable == index_of(report.materialized.durable),
        s.materialized_pending_entries == report.materialized.pending_entries,
        s.materialized_pending_bytes == report.materialized.pending_bytes,
        s.materialized_oldest_pending_ms == report.materialized.oldest_pending_ms,
        s.materialized_last_flush_latency_ms == report.materialized.last_flush_latency_ms,
        s.materialized_max_flush_latency_ms == report.materialized.max_flush_latency_ms,
        s.materialized_flush_failures == report.materialized.flush_failures,
        s.materialized_recovery_ready == report.materialized.recovery_ready,
        s.materialized_recovery_epoch == report.materialized.recovery_epoch,
        s.materialized_recovery_target == index_of(report.materialized.recovery_target),
        s.materialized_recovery_attempts == report.materialized.recovery_attempts,
        s.materialized_recovery_duration_ms == report.materialized.recovery_duration_ms,
        s.materialized_replayed_entries == report.materialized.replayed_entries,
        s.materialized_purge_waits == report.materialized.purge_waits,
        s.materialized_purge_wait_ms == report.materialized.purge_wait_ms,
        s.materialized_snapshot_waits == report.materialized.snapshot_waits,
        s.materialized_snapshot_wait_ms == report.materialized.snapshot_wait_ms,
        s.materialized_retained_log_entries == retained(
            report.last_log_index,
            index_of(report.materialized.durable),
        ),
        s.materialized_failed == report.materialized.failed,
        s.committed_voters@ == report.committed@,
        s.serving == report.serving,
        s.plan == report.plan,
{
    let m = report.materialized;
    let leads: bool = match report.leader {
        Some(l) => l == node,
        None => false,
    };
    let role: Role = if leads {
        Role::Leader
    } else if holds(&report.committed, node) {
        Role::Voter
    } else {
        Role::Learner
    };
    PartitionStatus {
        partition: report.partition,
        role,
        leader: report.leader,
        applied: report.applied,
        materialized_visible: log_index(m.visible),
        materialized_durable: log_index(m.durable),
        materialized_pending_entries: m.pending_entries,
        materialized_pending_bytes: m.pending_bytes,
        materialized_oldest_pending_ms: m.oldest_pending_ms,
        materialized_last_flush_latency_ms: m.last_flush_latency_ms,
        materialized_max_flush_latency_ms: m.max_flush_latency_ms,
        materialized_flush_failures: m.flush_failures,
        materialized_recovery_ready: m.recovery_ready,
        materialized_recovery_epoch: m.recovery_epoch,
        materialized_recovery_target: log_index(m.recovery_target),
        materialized_recovery_attempts: m.recovery_attempts,
        materialized_recovery_duration_ms: m.recovery_duration_ms,
        materialized_replayed_entries: m.replayed_entries,
        materialized_purge_waits: m.purge_waits,
        materialized_purge_wait_ms: m.purge_wait_ms,
        materialized_snapshot_waits: m.snapshot_waits,
        materialized_snapshot_wait_ms: m.snapshot_wait_ms,
        materialized_retained_log_entries: retained_log_entries(
            report.last_log_index,
            log_index(m.durable),
        ),
        materialized_failed: m.failed,
        committed_voters: report.committed,
        serving: report.serving,
        plan: report.plan,
    }
}

/// Whether reports stand in the order of their partitions.
pub open spec fn in_order(list: Seq<PartitionStatus>) -> bool {
    forall|i: int, j: int|
        0 <= i < j < list.len() ==> (#[trigger] list[i]).partition <= (#[trigger] list[j]).partition
}

proof fn lemma_nothing(list: Seq<PartitionStatus>)
    requires
        list.len() == 0,
    ensures
        list.to_multiset() == Multiset::<PartitionStatus>::empty(),
{
    broadcast use vstd::seq_lib::group_to_multiset_ensures;

    assert forall|x: PartitionStatus| list.to_multiset().count(x) == 0 by {
        assert(!list.contains(x));
    }
    assert(list.to_multiset() =~= Multiset::<PartitionStatus>::empty());
}

/// Put reports in the order of their partitions.
pub fn sort_by_partition(list: Vec<PartitionStatus>) -> (out: Vec<PartitionStatus>)
    ensures
        in_order(out@),
        out@.to_multiset() == list@.to_multiset(),
{
    let ghost all = list@;
    let mut rest = list;
    let mut out: Vec<PartitionStatus> = Vec::new();
    proof {
        lemma_nothing(out@);
        assert(rest@.to_multiset().add(out@.to_multiset()) =~= all.to_multiset());
    }
    while rest.len() > 0
        invariant
            in_order(out@),
            rest@.to_multiset().add(out@.to_multiset()) == all.to_multiset(),
        decreases rest@.len(),
    {
        let ghost left = rest@;
        let ghost before = out@;
        let status = rest.remove(rest.len() - 1);
        let mut i: usize = 0;
        while i < out.len() && out[i].partition <= status.partition
            invariant
                out@ == before,
                in_order(out@),
                i <= out@.len(),
                forall|k: int| 0 <= k < i ==> (#[trigger] out@[k]).partition <= status.partition,
            decreases out@.len() - i,
        {
            i += 1;
        }
        out.insert(i, status);
        proof {
            let x = left.last();
            assert(rest@ =~= left.drop_last());
            assert(left =~= rest@.push(x));
            assert(out@ == before.insert(i as int, x));
            broadcast use vstd::seq_lib::group_to_multiset_ensures;

            assert(left.to_multiset() =~= rest@.to_multiset().insert(x));
            assert(out@.to_multiset() =~= before.to_multiset().insert(x)) by {
                vstd::seq_lib::to_multiset_insert(before, i as int, x);
            }
            assert(rest@.to_multiset().add(out@.to_multiset()) =~= left.to_multiset().add(
                before.to_multiset(),
            ));
        }
    }
    proof {
        lemma_nothing(rest@);
        assert(out@.to_multiset() =~= all.to_multiset());
    }
    out
}

/// Report on the meta group, if it runs here.
pub fn meta_status(node: NodeId, leader: Option<NodeId>, applied: Option<u64>, voters: Vec<NodeId>) -> (s:
    MetaStatus)
    ensures
        s.is_leader == (leader == Some(node)),
        s.leader == leader,
        s.applied == applied,
        s.voters@ == voters@,
{
    let is_leader: bool = match leader {
        Some(l) => l == node,
        None => false,
    };
    MetaStatus { is_leader, leader, applied, voters }
}

/// A node's report of itself.
pub fn status(
    node: NodeId,
    cluster: &ClusterConfig,
    meta: Option<MetaStatus>,
    partitions: Vec<PartitionStatus>,
    directory: Vec<NodeDirectoryEntry>,
) -> (s: ClusterStatus)
    ensures
        s.node_id == node,
        s.cluster_id@ == hex(cluster.cluster_id as nat),
        s.protocol_version == cluster.protocol_version,
        s.meta == meta,
        in_order(s.partitions@),
        s.partitions@.to_multiset() == partitions@.to_multiset(),
        s.directory@ == directory@,
{
    ClusterStatus {
        node_id: node,
        cluster_id: cluster_id_hex(cluster.cluster_id),
        protocol_version: cluster.protocol_version,
        meta,
        partitions: sort_by_partition(partitions),
        directory,
    }
}

/// What a log still retains is what lies beyond the durable position: everything,
/// counted from zero, where nothing is durable, and nothing where the log is empty or
/// all of it is.
pub proof fn law_retained_entries_lie_beyond(last: Option<u64>, durable: Option<u64>)
    ensures
        last is None ==> retained(last, durable) == 0,
        last is Some && durable is Some && durable->0 <= last->0 ==> durable->0 + retained(
            last,
            durable,
        ) == last->0,
        last is Some && durable is Some && durable->0 > last->0 ==> retained(last, durable) == 0,
        last is Some && last->0 < u64::MAX && durable is None ==> retained(last, durable) == last->0
            + 1,
{
}

/// Of two reports, the one for the lower partition stands first.
pub proof fn law_reports_are_ordered(list: Seq<PartitionStatus>, i: int, j: int)
    requires
        in_order(list),
        0 <= i < list.len(),
        0 <= j < list.len(),
    ensures
        list[i].partition < list[j].partition ==> i < j,
{
}

} // verus!
