//! A data group's serving gate: what a replica answers to writes, reads,
//! searches and recovery requests, given whether it may serve the group and what
//! its replication layer reports.
//!
//! Every request takes the verdict of the node's durable records first: `serving`
//! holds why the group may not be served, if it may not. A replica that was
//! removed answers nothing but that.
use crate::error::{behind, config_error, error_view, gives, Error, ErrorView};
use crate::partition::raft_types::RaftLogId;
use crate::partition::state_machine::ApplyResult;
use crate::sets::{holds, same_list};
use crate::text::{decimal, optional, prefixed, to_decimal, to_optional};
use crate::storage::StorageView;
use crate::types::{Consistency, DataRequest, GroupId, LogId, NodeId, ServingState, Version};
use vstd::prelude::*;

verus! {

/// The outcome of a write submitted through the serving gate.
#[derive(Debug, Clone, Copy, PartialEq, Eq, Structural)]
pub enum WriteOutcome {
    Applied(ApplyResult),
    /// This node is not the leader; retry the hinted one.
    NotLeader { leader: Option<NodeId> },
}

/// The outcome of a read.
#[derive(Debug, Clone, PartialEq, Eq)]
pub enum ReadOutcome {
    Value(Option<(Version, Vec<u8>)>),
    NotLeader { leader: Option<NodeId> },
    /// A stale read was refused: this replica has no leader, is no voter, or is
    /// behind the version that the caller asked for.
    TooStale { leader: Option<NodeId> },
}

/// The outcome of the barrier before a search.
#[derive(Debug, Clone, Copy, PartialEq, Eq, Structural)]
pub enum SearchBarrier {
    Ready(Option<RaftLogId>),
    NotLeader { leader: Option<NodeId> },
}

/// What confirming leadership with a quorum reports.
pub enum LeaderCheck {
    /// Still the leader; every entry up to the position is committed.
    Confirmed(Option<RaftLogId>),
    /// Not the leader.
    Forward(Option<NodeId>),
    Failed(String),
}

/// What submitting a command reports.
pub enum WriteReport {
    Committed { log_id: RaftLogId, result: ApplyResult },
    Forward(Option<NodeId>),
    Failed(String),
}

/// What a replica knows of itself at the time of a request.
pub struct ReplicaView {
    pub node_id: NodeId,
    /// The voters of the committed membership.
    pub voters: Vec<NodeId>,
    pub leader: Option<NodeId>,
    /// Whether the state has caught up since the process started.
    pub recovery_ready: bool,
    /// The highest applied index.
    pub applied: Option<u64>,
}

/// What to do next for a read.
#[derive(Debug, Clone, Copy, PartialEq, Eq, Structural)]
pub enum ReadStep {
    /// Confirm leadership, then ask again with the outcome.
    Confirm,
    /// Answer from the local records.
    Local,
    NotLeader { leader: Option<NodeId> },
    TooStale { leader: Option<NodeId> },
}

/// Only a data group is run as a partition.
pub fn require_data_group(group: GroupId) -> (r: Result<(), Error>)
    ensures
        r is Ok <==> group is Data,
        match r {
            Ok(_) => true,
            Err(e) => e@ == ErrorView::Config("PartitionNode requires a data-group id"@),
        },
{
    match group {
        GroupId::Data(_) => Ok(()),
        GroupId::Meta => Err(config_error("PartitionNode requires a data-group id")),
    }
}

/// Begin a write: hand out the request to submit, if the group may be served.
pub fn begin_write(serving: Option<&Error>, request: DataRequest) -> (r: Result<DataRequest, Error>)
    ensures
        gives(r, behind(error_view(serving), Ok(request))),
{
    match serving {
        Some(e) => Err(e.duplicate()),
        None => Ok(request),
    }
}

/// The outcome that a submitted command's report means.
pub fn write_outcome(report: WriteReport) -> (r: Result<WriteOutcome, Error>)
    ensures
        match report {
            WriteReport::Committed { result, .. } => r == Ok::<WriteOutcome, Error>(
                WriteOutcome::Applied(result),
            ),
            WriteReport::Forward(leader) => r == Ok::<WriteOutcome, Error>(
                WriteOutcome::NotLeader { leader },
            ),
            WriteReport::Failed(text) => r matches Err(e) && e@ == ErrorView::Raft(text@),
        },
        r is Err <==> report is Failed,
        (r matches Ok(WriteOutcome::Applied(_))) <==> report is Committed,
        (r matches Ok(WriteOutcome::NotLeader { .. })) <==> report is Forward,
{
    match report {
        WriteReport::Committed { result, .. } => Ok(WriteOutcome::Applied(result)),
        WriteReport::Forward(leader) => Ok(WriteOutcome::NotLeader { leader }),
        WriteReport::Failed(text) => Err(Error::Raft(text)),
    }
}

/// What a replica does with a stale read once its leader is known to be fresh:
/// it answers if its state has recovered and reached the asked version.
pub open spec fn stale_step(
    leader: Option<NodeId>,
    recovery_ready: bool,
    applied: Option<u64>,
    min_version: Option<Version>,
) -> ReadStep {
    let reached = match applied {
        Some(i) => i,
        None => 0,
    };
    if !recovery_ready {
        ReadStep::TooStale { leader }
    } else if min_version matches Some(min) && reached < min {
        ReadStep::TooStale { leader }
    } else {
        ReadStep::Local
    }
}

/// The first step of a read.
pub open spec fn read_step(
    node_id: NodeId,
    voters: Seq<NodeId>,
    leader: Option<NodeId>,
    recovery_ready: bool,
    applied: Option<u64>,
    consistency: Consistency,
) -> ReadStep {
    match consistency {
        Consistency::Linearizable => ReadStep::Confirm,
        Consistency::Stale { min_version } => if !voters.contains(node_id) {
            ReadStep::TooStale { leader }
        } else if leader is None {
            ReadStep::TooStale { leader: None }
        } else if leader == Some(node_id) {
            ReadStep::Confirm
        } else {
            stale_step(leader, recovery_ready, applied, min_version)
        },
    }
}

fn stale(
    leader: Option<NodeId>,
    recovery_ready: bool,
    applied: Option<u64>,
    min_version: Option<Version>,
) -> (step: ReadStep)
    ensures
        step == stale_step(leader, recovery_ready, applied, min_version),
{
    if !recovery_ready {
        return ReadStep::TooStale { leader };
    }
    let reached: u64 = match applied {
        Some(i) => i,
        None => 0,
    };
    match min_version {
        Some(min) if reached < min => ReadStep::TooStale { leader },
        _ => ReadStep::Local,
    }
}

/// How a read begins behind the serving gate.
pub open spec fn read_start(
    serving: Option<ErrorView>,
    view: ReplicaView,
    consistency: Consistency,
) -> Result<ReadStep, ErrorView> {
    behind(
        serving,
        Ok(
            read_step(
                view.node_id,
                view.voters@,
                view.leader,
                view.recovery_ready,
                view.applied,
                consistency,
            ),
        ),
    )
}

/// Begin a read, if the group may be served. A linearizable read always confirms
/// leadership first. A stale read is answered only by a committed voter that
/// follows a leader; a replica that believes to lead confirms it, since an
/// isolated leader would not notice.
pub fn begin_read(view: &ReplicaView, serving: Option<&Error>, consistency: Consistency) -> (r:
    Result<ReadStep, Error>)
    ensures
        gives(r, read_start(error_view(serving), *view, consistency)),
{
    match serving {
        Some(e) => Err(e.duplicate()),
        None => Ok(first_step(view, consistency)),
    }
}

fn first_step(view: &ReplicaView, consistency: Consistency) -> (step: ReadStep)
    ensures
        step == read_step(
            view.node_id,
            view.voters@,
            view.leader,
            view.recovery_ready,
            view.applied,
            consistency,
        ),
{
    let min_version: Option<Version> = match consistency {
        Consistency::Linearizable => {
            return ReadStep::Confirm;
        },
        Consistency::Stale { min_version } => min_version,
    };
    if !holds(&view.voters, view.node_id) {
        return ReadStep::TooStale { leader: view.leader };
    }
    match view.leader {
        None => ReadStep::TooStale { leader: None },
        Some(leader) => if leader == view.node_id {
            ReadStep::Confirm
        } else {
            stale(view.leader, view.recovery_ready, view.applied, min_version)
        },
    }
}

/// Go on with a read whose leadership was to be confirmed, with the view taken
/// afterwards. A stale read gets here only where the node believed to lead, so a
/// refusal names the node itself unless the check found another leader; and a
/// confirmation has opened its state.
pub fn continue_read(view: &ReplicaView, consistency: Consistency, check: LeaderCheck) -> (r:
    Result<ReadStep, Error>)
    ensures
        match (consistency, check) {
            (Consistency::Linearizable, LeaderCheck::Confirmed(_)) => r == Ok::<ReadStep, Error>(
                ReadStep::Local,
            ),
            (Consistency::Linearizable, LeaderCheck::Forward(leader)) => r == Ok::<
                ReadStep,
                Error,
            >(ReadStep::NotLeader { leader }),
            (Consistency::Linearizable, LeaderCheck::Failed(text)) => r matches Err(e) && e@
                == ErrorView::Raft(text@),
            (Consistency::Stale { min_version }, LeaderCheck::Confirmed(_)) => r == Ok::<
                ReadStep,
                Error,
            >(stale_step(Some(view.node_id), true, view.applied, min_version)),
            (Consistency::Stale { .. }, LeaderCheck::Forward(leader)) => r == Ok::<ReadStep, Error>(
                ReadStep::TooStale { leader },
            ),
            (Consistency::Stale { .. }, LeaderCheck::Failed(_)) => r == Ok::<ReadStep, Error>(
                ReadStep::TooStale { leader: Some(view.node_id) },
            ),
        },
        r == Ok::<ReadStep, Error>(ReadStep::Local) <==> check is Confirmed && (
        consistency matches Consistency::Stale { min_version: Some(min) } ==> min == 0 || (
        view.applied is Some && min <= view.applied->0)),
        r is Err <==> check is Failed && consistency is Linearizable,
        (r matches Ok(ReadStep::NotLeader { .. })) <==> check is Forward
            && consistency is Linearizable,
        r != Ok::<ReadStep, Error>(ReadStep::Confirm),
{
    match consistency {
        Consistency::Linearizable => match check {
            LeaderCheck::Confirmed(_) => Ok(ReadStep::Local),
            LeaderCheck::Forward(leader) => Ok(ReadStep::NotLeader { leader }),
            LeaderCheck::Failed(text) => Err(Error::Raft(text)),
        },
        Consistency::Stale { min_version } => match check {
            LeaderCheck::Confirmed(_) => Ok(
                stale(Some(view.node_id), true, view.applied, min_version),
            ),
            LeaderCheck::Forward(leader) => Ok(ReadStep::TooStale { leader }),
            LeaderCheck::Failed(_) => Ok(ReadStep::TooStale { leader: Some(view.node_id) }),
        },
    }
}

/// Without a confirmation only a stale read is answered from local records, and
/// only by a committed voter that follows another node, has recovered, and has
/// applied the version that the caller asked for.
pub proof fn law_local_answers_are_authorized(
    node_id: NodeId,
    voters: Seq<NodeId>,
    leader: Option<NodeId>,
    recovery_ready: bool,
    applied: Option<u64>,
    consistency: Consistency,
)
    requires
        read_step(node_id, voters, leader, recovery_ready, applied, consistency) is Local,
    ensures
        consistency is Stale,
        voters.contains(node_id),
        leader is Some && leader != Some(node_id),
        recovery_ready,
        consistency matches Consistency::Stale { min_version: Some(min) } ==> min == 0 || (
        applied matches Some(i) && i >= min),
{
}

/// The barrier of a search that need not be fresh: only the leader, a committed
/// voter whose state has recovered, may answer. A leader that may not is never
/// named to retry itself.
pub open spec fn relaxed_barrier(
    node_id: NodeId,
    voters: Seq<NodeId>,
    leader: Option<NodeId>,
    recovery_ready: bool,
) -> SearchBarrier {
    if voters.contains(node_id) && leader == Some(node_id) && recovery_ready {
        SearchBarrier::Ready(None)
    } else {
        SearchBarrier::NotLeader {
            leader: if leader == Some(node_id) {
                None
            } else {
                leader
            },
        }
    }
}

/// The answer to a search that need not be fresh, behind the serving gate.
pub open spec fn relaxed_answer(serving: Option<ErrorView>, view: ReplicaView) -> Result<
    SearchBarrier,
    ErrorView,
> {
    behind(
        serving,
        Ok(relaxed_barrier(view.node_id, view.voters@, view.leader, view.recovery_ready)),
    )
}

/// Decide a search that need not be fresh, if the group may be served.
pub fn search_relaxed(view: &ReplicaView, serving: Option<&Error>) -> (r: Result<
    SearchBarrier,
    Error,
>)
    ensures
        gives(r, relaxed_answer(error_view(serving), *view)),
{
    match serving {
        Some(e) => Err(e.duplicate()),
        None => Ok(relaxed(view)),
    }
}

fn relaxed(view: &ReplicaView) -> (b: SearchBarrier)
    ensures
        b == relaxed_barrier(view.node_id, view.voters@, view.leader, view.recovery_ready),
{
    let leads: bool = match view.leader {
        Some(leader) => leader == view.node_id,
        None => false,
    };
    if leads && view.recovery_ready && holds(&view.voters, view.node_id) {
        return SearchBarrier::Ready(None);
    }
    SearchBarrier::NotLeader {
        leader: if leads {
            None
        } else {
            view.leader
        },
    }
}

/// The answer to a strict search behind the serving gate.
pub open spec fn strict_answer(serving: Option<ErrorView>, check: LeaderCheck) -> Result<
    SearchBarrier,
    ErrorView,
> {
    behind(
        serving,
        match check {
            LeaderCheck::Confirmed(log_id) => Ok(SearchBarrier::Ready(log_id)),
            LeaderCheck::Forward(leader) => Ok(SearchBarrier::NotLeader { leader }),
            LeaderCheck::Failed(text) => Err(ErrorView::Raft("search ReadIndex: "@ + text@)),
        },
    )
}

/// Decide a strict search from the confirmation of leadership, if the group may
/// be served.
pub fn search_strict(serving: Option<&Error>, check: LeaderCheck) -> (r: Result<
    SearchBarrier,
    Error,
>)
    ensures
        gives(r, strict_answer(error_view(serving), check)),
{
    if let Some(e) = serving {
        return Err(e.duplicate());
    }
    match check {
        LeaderCheck::Confirmed(log_id) => Ok(SearchBarrier::Ready(log_id)),
        LeaderCheck::Forward(leader) => Ok(SearchBarrier::NotLeader { leader }),
        LeaderCheck::Failed(text) => Err(Error::Raft(prefixed("search ReadIndex: ", text.as_str()))),
    }
}

// -- recovery fences ---------------------------------------------------------

/// A target that a leader issues to a restarted voter.
#[derive(Debug, Clone, PartialEq, Eq)]
pub struct RecoveryFence {
    pub leader: NodeId,
    pub leader_term: u64,
    pub membership_log_id: Option<RaftLogId>,
    pub voters: Vec<NodeId>,
    pub target: Option<RaftLogId>,
}

/// The content of a recovery fence.
#[verifier::ext_equal]
pub struct FenceView {
    pub leader: NodeId,
    pub leader_term: u64,
    pub membership_log_id: Option<RaftLogId>,
    pub voters: Seq<NodeId>,
    pub target: Option<RaftLogId>,
}

impl View for RecoveryFence {
    type V = FenceView;

    open spec fn view(&self) -> FenceView {
        FenceView {
            leader: self.leader,
            leader_term: self.leader_term,
            membership_log_id: self.membership_log_id,
            voters: self.voters@,
            target: self.target,
        }
    }
}

/// The answer to a request for a recovery fence.
#[derive(Debug, Clone, PartialEq, Eq)]
pub enum RecoveryFenceReply {
    Fence(RecoveryFence),
    NotLeader { leader: Option<NodeId> },
    Rejected(String),
}

/// The content of an answer to a fence request.
#[verifier::ext_equal]
pub enum FenceReplyView {
    Fence(FenceView),
    NotLeader { leader: Option<NodeId> },
    Rejected(Seq<char>),
}

impl View for RecoveryFenceReply {
    type V = FenceReplyView;

    open spec fn view(&self) -> FenceReplyView {
        match self {
            RecoveryFenceReply::Fence(f) => FenceReplyView::Fence(f@),
            RecoveryFenceReply::NotLeader { leader } => FenceReplyView::NotLeader {
                leader: *leader,
            },
            RecoveryFenceReply::Rejected(text) => FenceReplyView::Rejected(text@),
        }
    }
}

/// The state of the replication layer that a fence is taken from or held to.
pub struct Leadership {
    pub leader: Option<NodeId>,
    pub term: u64,
    pub membership_log_id: Option<RaftLogId>,
    pub voters: Vec<NodeId>,
}

#[verifier::ext_equal]
pub struct LeadershipView {
    pub leader: Option<NodeId>,
    pub term: u64,
    pub membership_log_id: Option<RaftLogId>,
    pub voters: Seq<NodeId>,
}

impl View for Leadership {
    type V = LeadershipView;

    open spec fn view(&self) -> LeadershipView {
        LeadershipView {
            leader: self.leader,
            term: self.term,
            membership_log_id: self.membership_log_id,
            voters: self.voters@,
        }
    }
}

/// That a node is no committed voter of a group.
pub open spec fn not_a_voter(node: NodeId, group: GroupId) -> Seq<char> {
    "node "@ + decimal(node as nat) + " is not a committed voter of "@ + group.spec_label()
}

fn not_a_voter_text(node: NodeId, group: GroupId) -> (s: String)
    ensures
        s@ == not_a_voter(node, group),
{
    let mut s = prefixed("node ", to_decimal(node as u128).as_str());
    s.append(" is not a committed voter of ");
    s.append(group.label().as_str());
    s
}

/// The refusal of a node to issue a fence, before it asks its quorum: it may not
/// serve the group, or it does not lead.
pub open spec fn fence_refusal(
    node_id: NodeId,
    serving: Option<ErrorView>,
    leader: Option<NodeId>,
) -> Option<FenceReplyView> {
    match serving {
        Some(e) => Some(FenceReplyView::Rejected(e.text())),
        None => if leader == Some(node_id) {
            None
        } else {
            Some(FenceReplyView::NotLeader { leader })
        },
    }
}

/// Decide whether a node refuses a fence at once; `serving` holds why it may not
/// serve the group.
pub fn begin_fence(node_id: NodeId, serving: Option<&Error>, leader: Option<NodeId>) -> (r: Option<
    RecoveryFenceReply,
>)
    ensures
        match r {
            Some(reply) => fence_refusal(node_id, error_view(serving), leader) == Some(reply@),
            None => fence_refusal(node_id, error_view(serving), leader) is None,
        },
{
    if let Some(e) = serving {
        return Some(RecoveryFenceReply::Rejected(e.to_text()));
    }
    match leader {
        Some(l) if l == node_id => None,
        _ => Some(RecoveryFenceReply::NotLeader { leader }),
    }
}

/// What a quorum check lets a leader issue.
pub open spec fn fence_reply(
    node_id: NodeId,
    group: GroupId,
    requester: NodeId,
    check: LeaderCheck,
    now: LeadershipView,
) -> FenceReplyView {
    match check {
        LeaderCheck::Forward(leader) => FenceReplyView::NotLeader { leader },
        LeaderCheck::Failed(text) => FenceReplyView::Rejected(text@),
        LeaderCheck::Confirmed(target) => if now.leader != Some(node_id) {
            FenceReplyView::NotLeader { leader: now.leader }
        } else if !now.voters.contains(requester) {
            FenceReplyView::Rejected(not_a_voter(requester, group))
        } else {
            FenceReplyView::Fence(
                FenceView {
                    leader: node_id,
                    leader_term: now.term,
                    membership_log_id: now.membership_log_id,
                    voters: now.voters,
                    target,
                },
            )
        },
    }
}

/// Issue a fence once the quorum has answered: to a committed voter, and only
/// while this node still leads.
pub fn finish_fence(
    node_id: NodeId,
    group: GroupId,
    requester: NodeId,
    check: LeaderCheck,
    now: Leadership,
) -> (reply: RecoveryFenceReply)
    ensures
        reply@ == fence_reply(node_id, group, requester, check, now@),
{
    let target: Option<RaftLogId> = match check {
        LeaderCheck::Confirmed(target) => target,
        LeaderCheck::Forward(leader) => {
            return RecoveryFenceReply::NotLeader { leader };
        },
        LeaderCheck::Failed(text) => {
            return RecoveryFenceReply::Rejected(text);
        },
    };
    let leads: bool = match now.leader {
        Some(leader) => leader == node_id,
        None => false,
    };
    if !leads {
        return RecoveryFenceReply::NotLeader { leader: now.leader };
    }
    if !holds(&now.voters, requester) {
        return RecoveryFenceReply::Rejected(not_a_voter_text(requester, group));
    }
    RecoveryFenceReply::Fence(
        RecoveryFence {
            leader: node_id,
            leader_term: now.term,
            membership_log_id: now.membership_log_id,
            voters: now.voters,
            target,
        },
    )
}

/// What keeps a replica from opening on a fence, if anything does: another
/// leader or term, another membership, or not being a voter.
pub open spec fn fence_defect(
    node_id: NodeId,
    group: GroupId,
    fence: FenceView,
    now: LeadershipView,
) -> Option<ErrorView> {
    if now.leader != Some(fence.leader) || now.term != fence.leader_term {
        Some(
            ErrorView::Raft(
                "recovery fence leader changed: expected "@ + decimal(fence.leader as nat)
                    + " term "@ + decimal(fence.leader_term as nat) + ", observed "@ + optional(
                    now.leader,
                ) + " term "@ + decimal(now.term as nat),
            ),
        )
    } else if now.membership_log_id != fence.membership_log_id || now.voters != fence.voters {
        Some(
            ErrorView::Raft(
                "recovery fence membership changed while catch-up was in flight"@,
            ),
        )
    } else if !now.voters.contains(node_id) {
        Some(ErrorView::Raft(not_a_voter(node_id, group)))
    } else {
        None
    }
}

/// Hold a fence to what the replica sees now.
pub fn validate_recovery_fence(
    node_id: NodeId,
    group: GroupId,
    fence: &RecoveryFence,
    now: &Leadership,
) -> (r: Result<(), Error>)
    ensures
        match r {
            Ok(_) => fence_defect(node_id, group, fence@, now@) is None,
            Err(e) => fence_defect(node_id, group, fence@, now@) == Some(e@),
        },
{
    let same_leader: bool = match now.leader {
        Some(leader) => leader == fence.leader,
        None => false,
    };
    if !same_leader || now.term != fence.leader_term {
        let mut s = prefixed(
            "recovery fence leader changed: expected ",
            to_decimal(fence.leader as u128).as_str(),
        );
        s.append(" term ");
        s.append(to_decimal(fence.leader_term as u128).as_str());
        s.append(", observed ");
        s.append(to_optional(now.leader).as_str());
        s.append(" term ");
        s.append(to_decimal(now.term as u128).as_str());
        return Err(Error::Raft(s));
    }
    let same_membership: bool = match (now.membership_log_id, fence.membership_log_id) {
        (Some(a), Some(b)) => a == b,
        (None, None) => true,
        _ => false,
    };
    if !same_membership || !same_list(&now.voters, &fence.voters) {
        return Err(
            Error::Raft(
                "recovery fence membership changed while catch-up was in flight".to_owned(),
            ),
        );
    }
    if !holds(&now.voters, node_id) {
        return Err(Error::Raft(not_a_voter_text(node_id, group)));
    }
    Ok(())
}

/// What a replica does with a fence that it was issued.
#[derive(Debug, Clone, Copy, PartialEq, Eq, Structural)]
pub enum FenceStep {
    /// Its state is open already.
    Done,
    /// Wait until a position is visible, then hold the fence to what is seen then.
    Wait(RaftLogId),
    /// Hold the fence to what is seen now, and open.
    Confirm,
}

/// The first step with a fence.
pub open spec fn fence_step(ready: bool, target: Option<RaftLogId>) -> FenceStep {
    if ready {
        FenceStep::Done
    } else {
        match target {
            Some(log_id) => FenceStep::Wait(log_id),
            None => FenceStep::Confirm,
        }
    }
}

/// How a replica begins to apply a fence, behind the serving gate.
pub open spec fn fence_start(
    serving: Option<ErrorView>,
    ready: bool,
    node_id: NodeId,
    group: GroupId,
    fence: FenceView,
    now: LeadershipView,
) -> Result<FenceStep, ErrorView> {
    behind(
        serving,
        match fence_defect(node_id, group, fence, now) {
            Some(e) if !ready => Err(e),
            _ => Ok(fence_step(ready, fence.target)),
        },
    )
}

/// Begin to apply a fence, if the group may be served. One that no longer holds
/// is refused before anything is waited for; `complete_recovery_fence` decides
/// again once the target is visible.
pub fn apply_recovery_fence(
    serving: Option<&Error>,
    ready: bool,
    node_id: NodeId,
    group: GroupId,
    fence: &RecoveryFence,
    now: &Leadership,
) -> (r: Result<FenceStep, Error>)
    ensures
        gives(r, fence_start(error_view(serving), ready, node_id, group, fence@, now@)),
{
    if let Some(e) = serving {
        return Err(e.duplicate());
    }
    if ready {
        return Ok(FenceStep::Done);
    }
    match validate_recovery_fence(node_id, group, fence, now) {
        Ok(_) => match fence.target {
            Some(log_id) => Ok(FenceStep::Wait(log_id)),
            None => Ok(FenceStep::Confirm),
        },
        Err(e) => Err(e),
    }
}

// -- recovery ----------------------------------------------------------------

/// What an event does to a replica's state, which is closed to local reads when
/// the process starts.
#[derive(Debug, Clone, Copy, PartialEq, Eq, Structural)]
pub enum Recovery {
    /// It stays as it is.
    Stays,
    /// It opens, at the position that was reached.
    Opens { target: Option<RaftLogId> },
}

/// What evidence that every entry up to a position is committed does.
pub open spec fn opened(ready: bool, target: Option<RaftLogId>) -> Recovery {
    if ready {
        Recovery::Stays
    } else {
        Recovery::Opens { target }
    }
}

/// What the confirmation of leadership does to a replica's state.
pub open spec fn recovery_by_check(ready: bool, check: LeaderCheck) -> Recovery {
    match check {
        LeaderCheck::Confirmed(target) => opened(ready, target),
        _ => Recovery::Stays,
    }
}

/// What the report of a write does to a replica's state.
pub open spec fn recovery_by_write(ready: bool, report: WriteReport) -> Recovery {
    match report {
        WriteReport::Committed { log_id, .. } => opened(ready, Some(log_id)),
        _ => Recovery::Stays,
    }
}

fn open_state_recovery(ready: bool, target: Option<RaftLogId>) -> (r: Recovery)
    ensures
        r == opened(ready, target),
{
    if ready {
        Recovery::Stays
    } else {
        Recovery::Opens { target }
    }
}

/// Decide whether a check of leadership opens the replica's state.
pub fn recovery_after_check(ready: bool, check: &LeaderCheck) -> (r: Recovery)
    ensures
        r == recovery_by_check(ready, *check),
{
    match check {
        LeaderCheck::Confirmed(target) => open_state_recovery(ready, *target),
        _ => Recovery::Stays,
    }
}

/// Decide whether the report of a write opens the replica's state.
pub fn recovery_after_write(ready: bool, report: &WriteReport) -> (r: Recovery)
    ensures
        r == recovery_by_write(ready, *report),
{
    match report {
        WriteReport::Committed { log_id, .. } => open_state_recovery(ready, Some(*log_id)),
        _ => Recovery::Stays,
    }
}

/// What a fence does to a replica's state once its target is visible.
pub open spec fn recovery_by_fence(
    ready: bool,
    node_id: NodeId,
    group: GroupId,
    fence: FenceView,
    now: LeadershipView,
) -> Result<Recovery, ErrorView> {
    match fence_defect(node_id, group, fence, now) {
        Some(e) => Err(e),
        None => Ok(opened(ready, fence.target)),
    }
}

/// Decide whether a fence opens the replica's state, once its target is visible:
/// it must still hold.
pub fn complete_recovery_fence(
    ready: bool,
    node_id: NodeId,
    group: GroupId,
    fence: &RecoveryFence,
    now: &Leadership,
) -> (r: Result<Recovery, Error>)
    ensures
        gives(r, recovery_by_fence(ready, node_id, group, fence@, now@)),
{
    match validate_recovery_fence(node_id, group, fence, now) {
        Ok(_) => Ok(open_state_recovery(ready, fence.target)),
        Err(e) => Err(e),
    }
}

/// Whether a replica's state is open after an event.
pub open spec fn ready_after(ready: bool, event: Recovery) -> bool {
    ready || event is Opens
}

/// State that is open stays open. State that is closed opens only on proof of
/// what is committed, at the position that was proved: a confirmed leadership, a
/// committed write, or a fence that still holds.
pub proof fn law_recovery_opens_on_proof(
    check: LeaderCheck,
    report: WriteReport,
    node_id: NodeId,
    group: GroupId,
    fence: FenceView,
    now: LeadershipView,
)
    ensures
        recovery_by_check(true, check) is Stays,
        recovery_by_write(true, report) is Stays,
        ready_after(false, recovery_by_check(false, check)) <==> check is Confirmed,
        check matches LeaderCheck::Confirmed(target) ==> recovery_by_check(false, check) == (
        Recovery::Opens { target }),
        ready_after(false, recovery_by_write(false, report)) <==> report is Committed,
        report matches WriteReport::Committed { log_id, .. } ==> recovery_by_write(false, report)
            == (Recovery::Opens { target: Some(log_id) }),
        recovery_by_fence(false, node_id, group, fence, now) is Ok <==> fence_defect(
            node_id,
            group,
            fence,
            now,
        ) is None,
        recovery_by_fence(false, node_id, group, fence, now) matches Ok(event) ==> event == (
        Recovery::Opens { target: fence.target }),
{
}

// -- configuration -----------------------------------------------------------

/// The committed membership that a replica reports behind the serving gate, once
/// leadership was confirmed; otherwise why it was not.
pub open spec fn config_answer(
    serving: Option<ErrorView>,
    confirmed: Result<Option<RaftLogId>, Seq<char>>,
    membership: (Option<RaftLogId>, Seq<NodeId>),
) -> Result<(Option<LogId>, Seq<NodeId>), ErrorView> {
    behind(
        serving,
        match confirmed {
            Err(text) => Err(ErrorView::Raft("confirm committed membership: "@ + text)),
            Ok(_) => Ok(
                (
                    match membership.0 {
                        Some(id) => Some(LogId { term: id.term, index: id.index }),
                        None => None,
                    },
                    membership.1,
                ),
            ),
        },
    )
}

/// Report the committed membership, if the group may be served and leadership was
/// confirmed: a former leader must not report a membership of its own.
pub fn confirmed_committed_config(
    serving: Option<&Error>,
    confirmed: Result<Option<RaftLogId>, String>,
    membership_log_id: Option<RaftLogId>,
    voters: Vec<NodeId>,
) -> (r: Result<(Option<LogId>, Vec<NodeId>), Error>)
    ensures
        ({
            let want = config_answer(
                error_view(serving),
                match confirmed {
                    Ok(target) => Ok(target),
                    Err(text) => Err(text@),
                },
                (membership_log_id, voters@),
            );
            match (r, want) {
                (Ok((id, v)), Ok((want_id, want_v))) => id == want_id && v@ == want_v,
                (Err(e), Err(f)) => e@ == f,
                _ => false,
            }
        }),
{
    if let Some(e) = serving {
        return Err(e.duplicate());
    }
    match confirmed {
        Err(text) => Err(
            Error::Raft(prefixed("confirm committed membership: ", text.as_str())),
        ),
        Ok(_) => {
            let log_id: Option<LogId> = match membership_log_id {
                Some(id) => Some(id.position()),
                None => None,
            };
            Ok((log_id, voters))
        },
    }
}

// -- laws --------------------------------------------------------------------

/// Where the serving gate is closed, a replica answers nothing but the refusal:
/// no write is submitted, nothing is read or searched, no membership is reported,
/// and no fence is issued or applied.
pub proof fn law_closed_gate_answers_nothing(
    e: ErrorView,
    view: ReplicaView,
    consistency: Consistency,
    request: DataRequest,
    check: LeaderCheck,
    confirmed: Result<Option<RaftLogId>, Seq<char>>,
    membership: (Option<RaftLogId>, Seq<NodeId>),
    ready: bool,
    group: GroupId,
    fence: FenceView,
    now: LeadershipView,
)
    ensures
        behind(Some(e), Ok(request)) == Err::<DataRequest, ErrorView>(e),
        read_start(Some(e), view, consistency) == Err::<ReadStep, ErrorView>(e),
        relaxed_answer(Some(e), view) == Err::<SearchBarrier, ErrorView>(e),
        strict_answer(Some(e), check) == Err::<SearchBarrier, ErrorView>(e),
        config_answer(Some(e), confirmed, membership) == Err::<
            (Option<LogId>, Seq<NodeId>),
            ErrorView,
        >(e),
        fence_refusal(view.node_id, Some(e), view.leader) == Some(
            FenceReplyView::Rejected(e.text()),
        ),
        fence_start(Some(e), ready, view.node_id, group, fence, now) == Err::<FenceStep, ErrorView>(
            e,
        ),
{
}

/// A replica whose group was given up is never served again, whatever it still
/// holds and whatever the consistency, until it is admitted anew.
pub proof fn law_removed_replicas_stay_silent(
    s: StorageView,
    group: GroupId,
    healthy: bool,
    view: ReplicaView,
    consistency: Consistency,
    check: LeaderCheck,
)
    requires
        s.serving_state(group) == Some(ServingState::NonServing),
    ensures
        s.serving_defect(group, healthy) is Some,
        read_start(s.serving_defect(group, healthy), view, consistency) is Err,
        relaxed_answer(s.serving_defect(group, healthy), view) is Err,
        strict_answer(s.serving_defect(group, healthy), check) is Err,
{
}

/// A fence opens the replica that asked for it as long as nothing has changed
/// since it was issued, and no longer once leader, term or membership change.
pub proof fn law_fence_holds_while_nothing_changes(
    leader: NodeId,
    group: GroupId,
    requester: NodeId,
    check: LeaderCheck,
    issued: LeadershipView,
    now: LeadershipView,
    fence: FenceView,
)
    requires
        fence_reply(leader, group, requester, check, issued) == FenceReplyView::Fence(fence),
    ensures
        fence_defect(requester, group, fence, now) is None <==> now == issued,
{
    if fence_defect(requester, group, fence, now) is None {
        assert(now =~= issued);
    }
}

/// How a read begins. A linearizable one always confirms leadership first. A stale
/// one is answered locally if and only if this replica votes, follows a known
/// other leader, has recovered and has applied at least what is asked for; it
/// confirms leadership if and only if this replica votes and believes it leads;
/// else it is too stale, and whatever leader is known is named.
pub proof fn law_reads_begin(
    node_id: NodeId,
    voters: Seq<NodeId>,
    leader: Option<NodeId>,
    recovery_ready: bool,
    applied: Option<u64>,
    min_version: Option<Version>,
)
    ensures
        read_step(
            node_id,
            voters,
            leader,
            recovery_ready,
            applied,
            Consistency::Linearizable,
        ) == ReadStep::Confirm,
        ({
            let step = read_step(
                node_id,
                voters,
                leader,
                recovery_ready,
                applied,
                Consistency::Stale { min_version },
            );
            let votes = voters.contains(node_id);
            let reached = min_version is None || min_version == Some(0u64) || (applied is Some
                && min_version->0 <= applied->0);
            &&& step is Local <==> votes && leader is Some && leader != Some(node_id)
                && recovery_ready && reached
            &&& step is Confirm <==> votes && leader == Some(node_id)
            &&& step is TooStale <==> !votes || leader is None || (leader != Some(node_id) && !(
            recovery_ready && reached))
            &&& step matches ReadStep::TooStale { leader: named } ==> named == leader
            &&& !(step is NotLeader)
        }),
{
}

/// What a confirmed leader answers to a stale read: its own state where that has
/// reached what is asked for, and nothing staler.
pub proof fn law_leaders_serve_what_they_applied(
    leader: Option<NodeId>,
    ready: bool,
    applied: Option<u64>,
    min_version: Option<Version>,
)
    ensures
        ({
            let reached = min_version is None || min_version == Some(0u64) || (applied is Some
                && min_version->0 <= applied->0);
            &&& stale_step(leader, ready, applied, min_version) == ReadStep::Local <==> ready
                && reached
            &&& stale_step(leader, ready, applied, min_version) == (ReadStep::TooStale { leader })
                <==> !(ready && reached)
        }),
{
}

/// A relaxed search is served if and only if this replica votes, believes it leads
/// and has recovered. A refusal never points back at this replica.
pub proof fn law_relaxed_searches_need_a_leader(
    node_id: NodeId,
    voters: Seq<NodeId>,
    leader: Option<NodeId>,
    recovery_ready: bool,
)
    ensures
        ({
            let barrier = relaxed_barrier(node_id, voters, leader, recovery_ready);
            &&& barrier == SearchBarrier::Ready(None) <==> voters.contains(node_id) && leader
                == Some(node_id) && recovery_ready
            &&& barrier matches SearchBarrier::Ready(at) ==> at is None
            &&& barrier matches SearchBarrier::NotLeader { leader: named } ==> named
                != Some(node_id) && (leader != Some(node_id) ==> named == leader)
        }),
{
}

/// A strict search and a configuration read are served only on a confirmed check,
/// at what it confirmed; a replica that does not lead says who does.
pub proof fn law_strict_answers_need_confirmation(
    serving: Option<ErrorView>,
    check: LeaderCheck,
    at: Option<RaftLogId>,
    named: Option<NodeId>,
    confirmed: Result<Option<RaftLogId>, Seq<char>>,
    membership: (Option<RaftLogId>, Seq<NodeId>),
)
    ensures
        strict_answer(serving, check) == Ok::<SearchBarrier, ErrorView>(SearchBarrier::Ready(at))
            <==> serving is None && check == LeaderCheck::Confirmed(at),
        strict_answer(serving, check) == Ok::<SearchBarrier, ErrorView>(
            SearchBarrier::NotLeader { leader: named },
        ) <==> serving is None && check == LeaderCheck::Forward(named),
        strict_answer(serving, check) is Err <==> serving is Some || check is Failed,
        config_answer(serving, confirmed, membership) is Ok <==> serving is None && confirmed is Ok,
        config_answer(serving, confirmed, membership) matches Ok((id, voters)) ==> voters
            == membership.1 && (id is Some <==> membership.0 is Some) && (id is Some ==> id->0.term
            == membership.0->0.term && id->0.index == membership.0->0.index),
{
}

/// A recovery fence is given out if and only if leadership was confirmed, still
/// stands, and the one who asks votes. It holds the leader's term, the membership
/// it stands on and the confirmed target.
pub proof fn law_fences_are_given_to_voters(
    node_id: NodeId,
    group: GroupId,
    requester: NodeId,
    check: LeaderCheck,
    now: LeadershipView,
    serving: Option<ErrorView>,
    leader: Option<NodeId>,
)
    ensures
        ({
            let reply = fence_reply(node_id, group, requester, check, now);
            &&& reply is Fence <==> check is Confirmed && now.leader == Some(node_id)
                && now.voters.contains(requester)
            &&& reply matches FenceReplyView::Fence(fence) ==> fence.leader == node_id
                && fence.leader_term == now.term && fence.membership_log_id
                == now.membership_log_id && fence.voters == now.voters && check
                == LeaderCheck::Confirmed(fence.target)
            &&& reply is NotLeader <==> check is Forward || (check is Confirmed && now.leader
                != Some(node_id))
        }),
        fence_refusal(node_id, serving, leader) is None <==> serving is None && leader == Some(
            node_id,
        ),
        serving is None && leader != Some(node_id) ==> fence_refusal(node_id, serving, leader)
            == Some(FenceReplyView::NotLeader { leader }),
{
}

/// A fence is good if and only if the leader, its term, the membership position and
/// the voters are still what it says, and this replica is among the voters.
pub proof fn law_fences_bind_to_one_leadership(
    node_id: NodeId,
    group: GroupId,
    fence: FenceView,
    now: LeadershipView,
    ready: bool,
)
    ensures
        ({
            let good = now.leader == Some(fence.leader) && now.term == fence.leader_term
                && now.membership_log_id == fence.membership_log_id && now.voters == fence.voters
                && now.voters.contains(node_id);
            &&& fence_defect(node_id, group, fence, now) is None <==> good
            &&& fence_start(None, ready, node_id, group, fence, now) is Ok <==> ready || good
            &&& recovery_by_fence(ready, node_id, group, fence, now) is Ok <==> good
            &&& ready ==> fence_start(None, ready, node_id, group, fence, now) == Ok::<
                FenceStep,
                ErrorView,
            >(FenceStep::Done)
            &&& !ready && good ==> match fence.target {
                Some(target) => fence_start(None, ready, node_id, group, fence, now) == Ok::<
                    FenceStep,
                    ErrorView,
                >(FenceStep::Wait(target)),
                None => fence_start(None, ready, node_id, group, fence, now) == Ok::<
                    FenceStep,
                    ErrorView,
                >(FenceStep::Confirm),
            }
        }),
{
}

} // verus!
