//! The read-only admin plane: what a node reports of itself, and its health.
use crate::types::{NodeDirectoryEntry, NodeId};
use vstd::prelude::*;

verus! {

/// A node's report of itself, all from local state.
#[derive(Debug, Clone, PartialEq, Eq)]
pub struct ClusterStatus {
    pub node_id: NodeId,
    /// The cluster id in hexadecimal.
    pub cluster_id: String,
    pub protocol_version: u32,
    /// Present when this node runs the meta group.
    pub meta: Option<MetaStatus>,
    pub partitions: Vec<PartitionStatus>,
    /// The committed node directory as this node sees it.
    pub directory: Vec<NodeDirectoryEntry>,
}

#[derive(Debug, Clone, PartialEq, Eq)]
pub struct MetaStatus {
    pub is_leader: bool,
    pub leader: Option<NodeId>,
    pub applied: Option<u64>,
    pub voters: Vec<NodeId>,
}

/// What a replica is to its group.
#[derive(Debug, Clone, Copy, PartialEq, Eq, Structural)]
pub enum Role {
    Leader,
    Voter,
    Learner,
}

#[derive(Debug, Clone, PartialEq, Eq)]
pub struct PartitionStatus {
    pub partition: u16,
    pub role: Role,
    pub leader: Option<NodeId>,
    pub applied: Option<u64>,
    /// The highest entry visible to reads in this process.
    pub materialized_visible: Option<u64>,
    /// The highest entry covered by a completed flush.
    pub materialized_durable: Option<u64>,
    pub materialized_pending_entries: usize,
    pub materialized_pending_bytes: usize,
    pub materialized_oldest_pending_ms: Option<u64>,
    pub materialized_last_flush_latency_ms: Option<u64>,
    pub materialized_max_flush_latency_ms: u64,
    pub materialized_flush_failures: u64,
    /// Whether this process may serve local state after recovery.
    pub materialized_recovery_ready: bool,
    pub materialized_recovery_epoch: u64,
    pub materialized_recovery_target: Option<u64>,
    pub materialized_recovery_attempts: u64,
    pub materialized_recovery_duration_ms: Option<u64>,
    pub materialized_replayed_entries: u64,
    pub materialized_purge_waits: u64,
    pub materialized_purge_wait_ms: u64,
    pub materialized_snapshot_waits: u64,
    pub materialized_snapshot_wait_ms: u64,
    pub materialized_retained_log_entries: u64,
    pub materialized_failed: bool,
    pub committed_voters: Vec<NodeId>,
    pub serving: bool,
    pub plan: Option<PlanStatus>,
}

#[derive(Debug, Clone, Copy, PartialEq, Eq, Structural)]
pub struct PlanStatus {
    pub plan_id: u64,
    pub aborting: bool,
}

/// Where a status report comes from.
pub trait StatusSource: Send + Sync {
    fn status(&self) -> ClusterStatus;
}

/// An answer of the health check.
#[derive(Debug, Clone, Copy, PartialEq, Eq)]
pub struct Health {
    pub code: u16,
    pub text: &'static str,
}

/// Whether any partition's state has failed.
pub open spec fn any_failed(partitions: Seq<PartitionStatus>) -> bool {
    exists|i: int| 0 <= i < partitions.len() && (#[trigger] partitions[i]).materialized_failed
}

/// The health of a node: it fails once the state of any partition has failed.
pub fn health(status: &ClusterStatus) -> (h: Health)
    ensures
        any_failed(status.partitions@) ==> h.code == 503 && h.text@ == "failed"@,
        !any_failed(status.partitions@) ==> h.code == 200 && h.text@ == "ok"@,
{
    let mut i: usize = 0;
    while i < status.partitions.len()
        invariant
            i <= status.partitions@.len(),
            forall|k: int| 0 <= k < i ==> !(#[trigger] status.partitions@[k]).materialized_failed,
        decreases status.partitions@.len() - i,
    {
        if status.partitions[i].materialized_failed {
            assert(any_failed(status.partitions@));
            return Health { code: 503, text: "failed" };
        }
        i += 1;
    }
    Health { code: 200, text: "ok" }
}

/// A node counts as failed if and only if one of its partitions does.
pub proof fn law_one_failure_shows(partitions: Seq<PartitionStatus>, more: PartitionStatus)
    ensures
        !any_failed(Seq::<PartitionStatus>::empty()),
        any_failed(partitions.push(more)) <==> any_failed(partitions) || more.materialized_failed,
{
    let all = partitions.push(more);
    if any_failed(partitions) {
        let i = choose|i: int|
            0 <= i < partitions.len() && (#[trigger] partitions[i]).materialized_failed;
        assert(all[i].materialized_failed);
    }
    if more.materialized_failed {
        assert(all[partitions.len() as int].materialized_failed);
    }
    if any_failed(all) && !more.materialized_failed {
        let i = choose|i: int| 0 <= i < all.len() && (#[trigger] all[i]).materialized_failed;
        assert(partitions[i].materialized_failed);
    }
}

} // verus!
