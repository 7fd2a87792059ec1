//! The node's inbound frames: which half of the node each goes to, and what
//! peers and operators are answered. Client frames go to the gateway, so no
//! client can submit a plan or a change of membership.
use crate::api::gateway::ClientGateway;
use crate::error::{Error, ErrorView};
use crate::meta::failure::{heard, HeartbeatTracker};
use crate::meta::node::{MetaRead, ProposeOutcome};
use crate::partition::node::{FenceReplyView, RecoveryFenceReply};
use crate::runtime::directory::{DirectoryQueryReply, DirectoryReplyView};
use crate::search::{DefinitionHash, DefinitionView, SEARCH_ENGINE_REVISION};
use crate::sets::same_list;
use crate::text::{decimal, prefixed, to_decimal};
use crate::transport::{Envelope, EnvelopeView, MsgType};
use crate::types::{
    entry_views, ClusterId, GroupId, MetaCommand, MetaCommandView, NodeDirectoryEntry,
    NodeEntryView, NodeId, NodeState, Placement, PlacementView, ProcessIdentityGate,
};
use crate::wire::{
    AbortPlanBody, BootstrapStatusBody, HeartbeatBody, JoinBody, LeadershipTransferReply,
    LearnerReply, LearnerReplyView, ObservationBody, SearchIndexAdminBody, SearchIndexAdminView,
    SearchIndexStatusBody, SearchIndexStatusReply, SearchStatusView, SubmitReply, SubmitReplyView, TransferView,
};
use vstd::prelude::*;

verus! {

/// The handlers of peer and operator frames.
#[derive(Debug, Clone, Copy, PartialEq, Eq, Structural)]
pub enum Handler {
    Raft,
    Observation,
    Join,
    Leave,
    AbortPlan,
    BootstrapStatus,
    PlacementQuery,
    DirectoryQuery,
    RecoveryFence,
    Heartbeat,
    BecomeLearner,
    SearchPrepare,
    SearchExecute,
    SearchIndexStatus,
    SearchIndexAdmin,
    TransferLeadership,
}

/// Where a frame goes.
#[derive(Debug, Clone, Copy, PartialEq, Eq, Structural)]
pub enum FrameRoute {
    /// Answered with an empty reply, which the sender cannot read and so retries.
    Unavailable,
    Control(Handler),
    Client,
}

/// The handler of a kind of frame, if peers send it.
pub open spec fn handler_of(msg_type: MsgType) -> Option<Handler> {
    match msg_type {
        MsgType::RaftAppend => Some(Handler::Raft),
        MsgType::RaftVote => Some(Handler::Raft),
        MsgType::RaftSnapshot => Some(Handler::Raft),
        MsgType::DataConfigObservation => Some(Handler::Observation),
        MsgType::JoinRequest => Some(Handler::Join),
        MsgType::LeaveRequest => Some(Handler::Leave),
        MsgType::AbortPlanRequest => Some(Handler::AbortPlan),
        MsgType::BootstrapStatus => Some(Handler::BootstrapStatus),
        MsgType::PlacementQuery => Some(Handler::PlacementQuery),
        MsgType::DirectoryQuery => Some(Handler::DirectoryQuery),
        MsgType::DataRecoveryFence => Some(Handler::RecoveryFence),
        MsgType::Heartbeat => Some(Handler::Heartbeat),
        MsgType::BecomeLearner => Some(Handler::BecomeLearner),
        MsgType::SearchPrepare => Some(Handler::SearchPrepare),
        MsgType::SearchExecute => Some(Handler::SearchExecute),
        MsgType::SearchIndexStatus => Some(Handler::SearchIndexStatus),
        MsgType::SearchIndexAdmin => Some(Handler::SearchIndexAdmin),
        MsgType::TransferLeadership => Some(Handler::TransferLeadership),
        _ => None,
    }
}

/// Where a frame of a cluster goes on a node of a cluster.
pub open spec fn frame_target(
    own: ClusterId,
    open: bool,
    cluster_id: ClusterId,
    msg_type: MsgType,
) -> FrameRoute {
    if cluster_id != own || !open {
        FrameRoute::Unavailable
    } else if msg_type.spec_peer_control() {
        match handler_of(msg_type) {
            Some(h) => FrameRoute::Control(h),
            None => FrameRoute::Unavailable,
        }
    } else {
        FrameRoute::Client
    }
}

/// The dispatcher of a node's inbound frames. It holds the process's identity
/// gate, which is closed in place.
#[derive(Debug)]
pub struct RootDispatch {
    pub cluster_id: ClusterId,
    pub gateway: ClientGateway,
    pub identity_gate: ProcessIdentityGate,
}

/// A call of the replication layer.
#[derive(Debug, Clone, Copy, PartialEq, Eq, Structural)]
pub enum RaftCall {
    Append,
    Vote,
    Snapshot,
}

impl RootDispatch {
    /// The answer to a frame with a payload, under this node's cluster id.
    pub open spec fn spec_reply(&self, req: EnvelopeView, payload: Seq<u8>) -> EnvelopeView {
        EnvelopeView { cluster_id: self.cluster_id, payload, ..req }
    }

    pub fn new(cluster_id: ClusterId, gateway: ClientGateway) -> (d: RootDispatch)
        ensures
            d.cluster_id == cluster_id,
            d.gateway == gateway,
            d.identity_gate.spec_open(),
    {
        RootDispatch { cluster_id, gateway, identity_gate: ProcessIdentityGate::default() }
    }

    pub fn with_identity_gate(self, identity_gate: ProcessIdentityGate) -> (d: RootDispatch)
        ensures
            d == (RootDispatch { identity_gate, ..self }),
    {
        RootDispatch { cluster_id: self.cluster_id, gateway: self.gateway, identity_gate }
    }

    /// The answer to a frame, under this node's cluster id.
    pub fn reply(&self, req: &Envelope, payload: Vec<u8>) -> (e: Envelope)
        ensures
            e@ == self.spec_reply(req@, payload@),
    {
        Envelope::new(self.cluster_id, req.msg_type, req.group_id, req.request_id, payload)
    }

    /// An empty answer, which the sender takes for a network error and retries.
    pub fn raft_unavailable(&self, req: &Envelope) -> (e: Envelope)
        ensures
            e@ == self.spec_reply(req@, Seq::empty()),
    {
        self.reply(req, Vec::new())
    }

    /// Decide where a frame goes. One of another cluster, or one that comes after
    /// this process was superseded, reaches no group.
    pub fn serve(&self, request: &Envelope) -> (r: FrameRoute)
        ensures
            r == frame_target(
                self.cluster_id,
                self.identity_gate.spec_open(),
                request.cluster_id,
                request.msg_type,
            ),
    {
        if request.cluster_id != self.cluster_id || !self.identity_gate.is_open() {
            return FrameRoute::Unavailable;
        }
        if request.msg_type.is_peer_control() {
            match serve_control(request.msg_type) {
                Some(h) => FrameRoute::Control(h),
                None => FrameRoute::Unavailable,
            }
        } else {
            FrameRoute::Client
        }
    }
}

/// The handler of a peer's or an operator's frame.
pub fn serve_control(msg_type: MsgType) -> (r: Option<Handler>)
    ensures
        r == handler_of(msg_type),
{
    match msg_type {
        MsgType::RaftAppend => Some(Handler::Raft),
        MsgType::RaftVote => Some(Handler::Raft),
        MsgType::RaftSnapshot => Some(Handler::Raft),
        MsgType::DataConfigObservation => Some(Handler::Observation),
        MsgType::JoinRequest => Some(Handler::Join),
        MsgType::LeaveRequest => Some(Handler::Leave),
        MsgType::AbortPlanRequest => Some(Handler::AbortPlan),
        MsgType::BootstrapStatus => Some(Handler::BootstrapStatus),
        MsgType::PlacementQuery => Some(Handler::PlacementQuery),
        MsgType::DirectoryQuery => Some(Handler::DirectoryQuery),
        MsgType::DataRecoveryFence => Some(Handler::RecoveryFence),
        MsgType::Heartbeat => Some(Handler::Heartbeat),
        MsgType::BecomeLearner => Some(Handler::BecomeLearner),
        MsgType::SearchPrepare => Some(Handler::SearchPrepare),
        MsgType::SearchExecute => Some(Handler::SearchExecute),
        MsgType::SearchIndexStatus => Some(Handler::SearchIndexStatus),
        MsgType::SearchIndexAdmin => Some(Handler::SearchIndexAdmin),
        MsgType::TransferLeadership => Some(Handler::TransferLeadership),
        _ => None,
    }
}

/// Whether the storage of a hosted partition is healthy; none where the
/// partition is not hosted.
pub open spec fn health_of(hosted: Seq<(u16, bool)>, partition: u16) -> Option<bool>
    decreases hosted.len(),
{
    if hosted.len() == 0 {
        None
    } else if hosted[0].0 == partition {
        Some(hosted[0].1)
    } else {
        health_of(hosted.skip(1), partition)
    }
}

/// Whether the runtime of a group runs here on healthy storage.
pub open spec fn runs_healthy(
    group: GroupId,
    meta: Option<bool>,
    hosted: Seq<(u16, bool)>,
) -> bool {
    match group {
        GroupId::Meta => meta == Some(true),
        GroupId::Data(p) => health_of(hosted, p) == Some(true),
    }
}

/// The call that a kind of replication frame makes.
pub open spec fn raft_call(msg_type: MsgType) -> RaftCall {
    match msg_type {
        MsgType::RaftAppend => RaftCall::Append,
        MsgType::RaftVote => RaftCall::Vote,
        _ => RaftCall::Snapshot,
    }
}

fn partition_healthy(hosted: &Vec<(u16, bool)>, partition: u16) -> (r: bool)
    ensures
        r == (health_of(hosted@, partition) == Some(true)),
{
    let mut i: usize = 0;
    assert(hosted@.skip(0) =~= hosted@);
    while i < hosted.len()
        invariant
            i <= hosted.len(),
            health_of(hosted@, partition) == health_of(hosted@.skip(i as int), partition),
        decreases hosted.len() - i,
    {
        assert(hosted@.skip(i as int).skip(1) =~= hosted@.skip(i + 1));
        assert(hosted@.skip(i as int)[0] == hosted@[i as int]);
        if hosted[i].0 == partition {
            return hosted[i].1;
        }
        i += 1;
    }
    false
}

impl RootDispatch {
    /// Decide what a replication frame does: the call on its group's runtime, or an
    /// empty answer while the group is not hosted here or its storage is not
    /// healthy. `meta` is the health of the meta runtime, if it runs here.
    pub fn serve_raft(
        &self,
        req: &Envelope,
        meta: Option<bool>,
        hosted: &Vec<(u16, bool)>,
    ) -> (r: Result<RaftCall, Envelope>)
        ensures
            match r {
                Ok(call) => runs_healthy(req.group_id, meta, hosted@) && call == raft_call(
                    req.msg_type,
                ),
                Err(e) => !runs_healthy(req.group_id, meta, hosted@) && e@
                    == self.spec_reply(req@, Seq::empty()),
            },
    {
        let healthy: bool = match req.group_id {
            GroupId::Meta => match meta {
                Some(h) => h,
                None => false,
            },
            GroupId::Data(p) => partition_healthy(hosted, p),
        };
        if !healthy {
            return Err(self.raft_unavailable(req));
        }
        Ok(
            match req.msg_type {
                MsgType::RaftAppend => RaftCall::Append,
                MsgType::RaftVote => RaftCall::Vote,
                _ => RaftCall::Snapshot,
            },
        )
    }

    /// Answer a replication frame whose call was made; `None` stands for a body
    /// that could not be read.
    pub fn raft_reply(&self, req: &Envelope, answer: Option<Vec<u8>>) -> (e: Envelope)
        ensures
            e@ == self.spec_reply(
                req@,
                match answer {
                    Some(bytes) => bytes@,
                    None => Seq::empty(),
                },
            ),
    {
        match answer {
            Some(bytes) => self.reply(req, bytes),
            None => self.raft_unavailable(req),
        }
    }
}

// -- commands ----------------------------------------------------------------

/// The answer to a command that was proposed to the meta group, if this node
/// runs it.
pub open spec fn submitted(report: Option<Result<ProposeOutcome, Error>>) -> SubmitReplyView {
    match report {
        None => SubmitReplyView::Error("node does not run the meta group"@),
        Some(Ok(ProposeOutcome::Applied(outcome))) => SubmitReplyView::Outcome(outcome@),
        Some(Ok(ProposeOutcome::NotLeader { leader })) => SubmitReplyView::NotLeader { leader },
        Some(Err(e)) => SubmitReplyView::Error(e@.text()),
    }
}

/// Answer a command that was proposed to the meta group.
pub fn submit(report: Option<Result<ProposeOutcome, Error>>) -> (r: SubmitReply)
    ensures
        r@ == submitted(report),
{
    match report {
        None => SubmitReply::Error("node does not run the meta group".to_owned()),
        Some(Ok(ProposeOutcome::Applied(outcome))) => SubmitReply::Outcome(outcome),
        Some(Ok(ProposeOutcome::NotLeader { leader })) => SubmitReply::NotLeader { leader },
        Some(Err(e)) => SubmitReply::Error(e.to_text()),
    }
}

/// Whether a frame gives the command or the answer that a decision says.
pub open spec fn asks(r: Result<MetaCommand, SubmitReply>, want: Result<MetaCommandView, SubmitReplyView>) -> bool {
    match (r, want) {
        (Ok(c), Ok(v)) => c@ == v,
        (Err(reply), Err(v)) => reply@ == v,
        _ => false,
    }
}

fn malformed() -> (r: SubmitReply)
    ensures
        r@ == SubmitReplyView::Error("malformed"@),
{
    SubmitReply::Error("malformed".to_owned())
}

/// The command of a data leader's report; none if it cannot be read.
pub fn serve_observation(body: Option<ObservationBody>) -> (r: Result<MetaCommand, SubmitReply>)
    ensures
        asks(
            r,
            match body {
                Some(b) => Ok(b@.command()),
                None => Err(SubmitReplyView::Error("malformed"@)),
            },
        ),
{
    match body {
        Some(b) => Ok(b.into_meta_command()),
        None => Err(malformed()),
    }
}

/// The command that registers a node.
pub fn serve_join(body: Option<JoinBody>) -> (r: Result<MetaCommand, SubmitReply>)
    ensures
        asks(
            r,
            match body {
                Some(b) => Ok(
                    MetaCommandView::RegisterNode {
                        node_id: b.node_id,
                        control_addr: b.control_addr@,
                        bulk_addr: b.bulk_addr@,
                    },
                ),
                None => Err(SubmitReplyView::Error("malformed"@)),
            },
        ),
{
    match body {
        Some(b) => Ok(
            MetaCommand::RegisterNode {
                node_id: b.node_id,
                control_addr: b.control_addr,
                bulk_addr: b.bulk_addr,
            },
        ),
        None => Err(malformed()),
    }
}

/// What a request to leave asks: that the node drains under the incarnation it
/// is registered with. `entry` is what the meta group, if it runs here, knows of
/// the node.
pub open spec fn leave_command(
    node: Option<NodeId>,
    entry: Option<Result<Option<u64>, Error>>,
) -> Result<MetaCommandView, SubmitReplyView> {
    match node {
        None => Err(SubmitReplyView::Error("malformed"@)),
        Some(node_id) => match entry {
            None => Err(SubmitReplyView::Error("node does not run the meta group"@)),
            Some(Ok(Some(incarnation))) => Ok(
                MetaCommandView::SetNodeState { node_id, state: NodeState::Draining, incarnation },
            ),
            Some(Ok(None)) => Err(
                SubmitReplyView::Error("node "@ + decimal(node_id as nat) + " is not registered"@),
            ),
            Some(Err(e)) => Err(SubmitReplyView::Error(e@.text())),
        },
    }
}

/// The command that drains a node.
pub fn serve_leave(node: Option<NodeId>, entry: Option<Result<Option<u64>, Error>>) -> (r: Result<
    MetaCommand,
    SubmitReply,
>)
    ensures
        asks(r, leave_command(node, entry)),
{
    let node_id: NodeId = match node {
        Some(id) => id,
        None => {
            return Err(malformed());
        },
    };
    match entry {
        None => Err(SubmitReply::Error("node does not run the meta group".to_owned())),
        Some(Ok(Some(incarnation))) => Ok(
            MetaCommand::SetNodeState { node_id, state: NodeState::Draining, incarnation },
        ),
        Some(Ok(None)) => {
            let mut s = prefixed("node ", to_decimal(node_id as u128).as_str());
            s.append(" is not registered");
            Err(SubmitReply::Error(s))
        },
        Some(Err(e)) => Err(SubmitReply::Error(e.to_text())),
    }
}

/// The command that aborts a plan.
pub fn serve_abort_plan(body: Option<AbortPlanBody>) -> (r: Result<MetaCommand, SubmitReply>)
    ensures
        asks(
            r,
            match body {
                Some(b) => Ok(
                    MetaCommandView::MarkAborting { group: b.group, plan_id: b.plan_id },
                ),
                None => Err(SubmitReplyView::Error("malformed"@)),
            },
        ),
{
    match body {
        Some(b) => Ok(MetaCommand::MarkAborting { group: b.group, plan_id: b.plan_id }),
        None => Err(malformed()),
    }
}

/// The command for a change of the search catalog, stamped with the revision of
/// the engine that would build it.
pub open spec fn index_command(body: SearchIndexAdminView) -> MetaCommandView {
    match body {
        SearchIndexAdminView::Create { name, definition } => {
            MetaCommandView::CreateSearchIndexWithRevision {
                name,
                definition,
                engine_revision: SEARCH_ENGINE_REVISION,
            }
        },
        SearchIndexAdminView::Rebuild { name, definition } => {
            MetaCommandView::CreateSearchIndexGenerationWithRevision {
                name,
                definition,
                engine_revision: SEARCH_ENGINE_REVISION,
            }
        },
        SearchIndexAdminView::Drop { name } => MetaCommandView::DropSearchIndex { name },
    }
}

/// The command that changes the search catalog.
pub fn serve_search_index_admin(body: Option<SearchIndexAdminBody>) -> (r: Result<
    MetaCommand,
    SubmitReply,
>)
    ensures
        asks(
            r,
            match body {
                Some(b) => Ok(index_command(b@)),
                None => Err(SubmitReplyView::Error("malformed"@)),
            },
        ),
{
    match body {
        Some(SearchIndexAdminBody::Create { name, definition }) => Ok(
            MetaCommand::CreateSearchIndexWithRevision {
                name,
                definition,
                engine_revision: SEARCH_ENGINE_REVISION,
            },
        ),
        Some(SearchIndexAdminBody::Rebuild { name, definition }) => Ok(
            MetaCommand::CreateSearchIndexGenerationWithRevision {
                name,
                definition,
                engine_revision: SEARCH_ENGINE_REVISION,
            },
        ),
        Some(SearchIndexAdminBody::Drop { name }) => Ok(MetaCommand::DropSearchIndex { name }),
        None => Err(malformed()),
    }
}

/// Answer a request to campaign for the meta group.
pub fn serve_transfer_leadership(report: Option<Result<(), Error>>) -> (r: LeadershipTransferReply)
    ensures
        r@ == match report {
            None => TransferView::Error("node does not run the meta group"@),
            Some(Ok(_)) => TransferView::Triggered,
            Some(Err(e)) => TransferView::Error(e@.text()),
        },
{
    match report {
        None => LeadershipTransferReply::Error("node does not run the meta group".to_owned()),
        Some(Ok(_)) => LeadershipTransferReply::Triggered,
        Some(Err(e)) => LeadershipTransferReply::Error(e.to_text()),
    }
}

/// Why this node cannot become a learner of a group, whatever the plan says.
pub open spec fn cannot_host(group: GroupId, hosts_meta: bool, hosts_data: bool) -> Option<ErrorView> {
    match group {
        GroupId::Meta => if hosts_meta {
            None
        } else {
            Some(ErrorView::Raft("node cannot host the meta group"@))
        },
        GroupId::Data(_) => if hosts_data {
            None
        } else {
            Some(ErrorView::Raft("node cannot host data partitions"@))
        },
    }
}

/// Decide whether this node can host a group at all.
pub fn serve_become_learner(group: GroupId, hosts_meta: bool, hosts_data: bool) -> (r: Result<
    (),
    Error,
>)
    ensures
        match (r, cannot_host(group, hosts_meta, hosts_data)) {
            (Ok(_), None) => true,
            (Err(e), Some(f)) => e@ == f,
            _ => false,
        },
{
    match group {
        GroupId::Meta => if hosts_meta {
            Ok(())
        } else {
            Err(Error::Raft("node cannot host the meta group".to_owned()))
        },
        GroupId::Data(_) => if hosts_data {
            Ok(())
        } else {
            Err(Error::Raft("node cannot host data partitions".to_owned()))
        },
    }
}

/// Answer a request to become a learner; none was made if it cannot be read.
pub fn learner_reply(admitted: Option<Result<(), Error>>) -> (r: LearnerReply)
    ensures
        r@ == match admitted {
            None => LearnerReplyView::Error("malformed"@),
            Some(Ok(_)) => LearnerReplyView::Admitted,
            Some(Err(e)) => LearnerReplyView::Error(e@.text()),
        },
{
    match admitted {
        None => LearnerReply::Error("malformed".to_owned()),
        Some(Ok(_)) => LearnerReply::Admitted,
        Some(Err(e)) => LearnerReply::Error(e.to_text()),
    }
}

// -- search ------------------------------------------------------------------

/// What is done with the first phase of a coordinated search.
#[derive(Debug, Clone, PartialEq, Eq)]
pub enum PrepareStep {
    /// Prepare the partition.
    Serve(u16),
    /// Not hosted here: the coordinator keeps looking.
    NotLeader,
    Error(String),
}

/// Decide what is done with the first phase of a coordinated search.
pub fn serve_search_prepare(group: GroupId, readable: bool, hosted: bool, search: bool) -> (step:
    PrepareStep)
    ensures
        match group {
            GroupId::Data(p) => if !readable {
                step matches PrepareStep::Error(text) && text@
                    == "SearchPrepare must address a data partition"@
            } else if !hosted {
                step is NotLeader
            } else if !search {
                step matches PrepareStep::Error(text) && text@
                    == "search service is not configured"@
            } else {
                step == PrepareStep::Serve(p)
            },
            GroupId::Meta => step matches PrepareStep::Error(text) && text@
                == "SearchPrepare must address a data partition"@,
        },
{
    match group {
        GroupId::Data(p) => if !readable {
            PrepareStep::Error("SearchPrepare must address a data partition".to_owned())
        } else if !hosted {
            PrepareStep::NotLeader
        } else if !search {
            PrepareStep::Error("search service is not configured".to_owned())
        } else {
            PrepareStep::Serve(p)
        },
        GroupId::Meta => PrepareStep::Error(
            "SearchPrepare must address a data partition".to_owned(),
        ),
    }
}

/// The second phase of a coordinated search, as far as it is decided on here.
#[derive(Debug, Clone, Copy, PartialEq, Eq, Structural)]
pub enum ExecuteBody {
    Execute,
    /// The coordinator gave up.
    Release { session_id: u64 },
}

/// What is done with the second phase of a coordinated search.
#[derive(Debug, Clone, PartialEq, Eq)]
pub enum ExecuteStep {
    Execute,
    /// Drop the session, and report it as unknown.
    Release { session_id: u64 },
    Error(String),
}

/// Decide what is done with the second phase of a coordinated search.
pub fn serve_search_execute(body: Result<ExecuteBody, String>, search: bool) -> (step: ExecuteStep)
    ensures
        match body {
            Err(detail) => step matches ExecuteStep::Error(text) && text@
                == "malformed SearchExecute: "@ + detail@,
            Ok(b) => if !search {
                step matches ExecuteStep::Error(text) && text@
                    == "search service is not configured"@
            } else {
                match b {
                    ExecuteBody::Execute => step is Execute,
                    ExecuteBody::Release { session_id } => step == (ExecuteStep::Release {
                        session_id,
                    }),
                }
            },
        },
{
    match body {
        Err(detail) => ExecuteStep::Error(
            prefixed("malformed SearchExecute: ", detail.as_str()),
        ),
        Ok(b) => if !search {
            ExecuteStep::Error("search service is not configured".to_owned())
        } else {
            match b {
                ExecuteBody::Execute => ExecuteStep::Execute,
                ExecuteBody::Release { session_id } => ExecuteStep::Release { session_id },
            }
        },
    }
}

/// Why a question after built generations cannot be answered with yes before any
/// generation is looked at.
pub open spec fn not_searchable(group: GroupId, search: bool, hosted: bool) -> Option<Seq<char>> {
    match group {
        GroupId::Meta => Some("search readiness requires a data partition"@),
        GroupId::Data(p) => if !search {
            Some("search service is not configured"@)
        } else if !hosted {
            Some("partition "@ + decimal(p as nat) + " is not hosted here"@)
        } else {
            None
        },
    }
}

/// Decide whether the generations of a group are worth looking at here.
pub fn search_generations_ready(group: GroupId, search: bool, hosted: bool) -> (r: Option<
    SearchIndexStatusReply,
>)
    ensures
        match (r, not_searchable(group, search, hosted)) {
            (None, None) => true,
            (Some(reply), Some(detail)) => reply@ == (SearchStatusView::Status {
                ready: false,
                detail,
            }),
            _ => false,
        },
{
    let detail: String = match group {
        GroupId::Meta => "search readiness requires a data partition".to_owned(),
        GroupId::Data(p) => if !search {
            "search service is not configured".to_owned()
        } else if !hosted {
            let mut s = prefixed("partition ", to_decimal(p as u128).as_str());
            s.append(" is not hosted here");
            s
        } else {
            return None;
        },
    };
    Some(SearchIndexStatusReply::Status { ready: false, detail })
}

/// What a frame about built search generations asks for.
#[derive(Debug, Clone, PartialEq, Eq)]
pub enum IndexStatusStep {
    /// Answer at once.
    Reply(SearchIndexStatusReply),
    /// Propose the command to the meta group, and answer with its outcome.
    Submit(MetaCommand),
    /// Look at the generations of a group here.
    Look { group: GroupId, generations: Vec<(String, u64, DefinitionHash)> },
}

/// Decide what a frame about built search generations asks for; `None` stands for
/// a body that could not be read.
pub fn serve_search_index_status(body: Option<SearchIndexStatusBody>) -> (r: IndexStatusStep)
    ensures
        match (body, r) {
            (None, IndexStatusStep::Reply(reply)) => reply@ == SearchStatusView::Submitted(
                SubmitReplyView::Error("malformed"@),
            ),
            (
                Some(SearchIndexStatusBody::Report { name, observation }),
                IndexStatusStep::Submit(command),
            ) => command@ == (MetaCommandView::ReportSearchIndexReady { name: name@, observation }),
            (
                Some(SearchIndexStatusBody::Query { group, generations }),
                IndexStatusStep::Look { group: g, generations: l },
            ) => g == group && l == generations,
            _ => false,
        },
{
    match body {
        None => IndexStatusStep::Reply(SearchIndexStatusReply::Submitted(malformed())),
        Some(SearchIndexStatusBody::Report { name, observation }) => IndexStatusStep::Submit(
            MetaCommand::ReportSearchIndexReady { name, observation },
        ),
        Some(SearchIndexStatusBody::Query { group, generations }) => IndexStatusStep::Look {
            group,
            generations,
        },
    }
}

/// Answer a report of built search generations that was proposed.
pub fn submit_index_status(report: Option<Result<ProposeOutcome, Error>>) -> (r:
    SearchIndexStatusReply)
    ensures
        r@ == SearchStatusView::Submitted(submitted(report)),
{
    SearchIndexStatusReply::Submitted(submit(report))
}

/// The answer after the generations were looked at one after the other, up to the
/// first that is not ready.
pub fn generations_reply(failed: Option<(&String, u64, &Error)>) -> (r: SearchIndexStatusReply)
    ensures
        r@ == match failed {
            None => SearchStatusView::Status { ready: true, detail: Seq::empty() },
            Some((name, generation, e)) => SearchStatusView::Status {
                ready: false,
                detail: name@ + "/"@ + decimal(generation as nat) + ": "@ + e@.text(),
            },
        },
{
    match failed {
        None => {
            let detail = String::new();
            assert(detail@ =~= Seq::<char>::empty());
            SearchIndexStatusReply::Status { ready: true, detail }
        },
        Some((name, generation, e)) => {
            let mut detail = name.clone();
            detail.append("/");
            detail.append(to_decimal(generation as u128).as_str());
            detail.append(": ");
            detail.append(e.to_text().as_str());
            SearchIndexStatusReply::Status { ready: false, detail }
        },
    }
}

// -- fenced reads --------------------------------------------------------------

/// The placement that a confirmed read gives. What an unconfirmed read holds is
/// never handed out.
pub open spec fn confirmed_placement(
    readable: bool,
    read: Option<Result<MetaRead<Option<Placement>>, Error>>,
) -> Option<PlacementView> {
    match read {
        Some(Ok(MetaRead::Value(Some(p)))) => if readable {
            Some(p@)
        } else {
            None
        },
        _ => None,
    }
}

/// Answer a question after a placement.
pub fn serve_placement_query(
    readable: bool,
    read: Option<Result<MetaRead<Option<Placement>>, Error>>,
) -> (r: Option<Placement>)
    ensures
        match (r, confirmed_placement(readable, read)) {
            (Some(p), Some(v)) => p@ == v,
            (None, None) => true,
            _ => false,
        },
{
    if !readable {
        return None;
    }
    match read {
        Some(Ok(MetaRead::Value(Some(p)))) => Some(p),
        _ => None,
    }
}

/// The refusal of a request for a recovery fence, before a group is asked.
pub open spec fn fence_refusal(group: GroupId, readable: bool, hosted: bool) -> Option<
    FenceReplyView,
> {
    match group {
        GroupId::Data(p) => if !readable {
            Some(FenceReplyView::Rejected("malformed recovery-fence request"@))
        } else if !hosted {
            Some(
                FenceReplyView::Rejected(
                    "partition "@ + decimal(p as nat) + " is not hosted on this node"@,
                ),
            )
        } else {
            None
        },
        GroupId::Meta => Some(FenceReplyView::Rejected("malformed recovery-fence request"@)),
    }
}

/// Decide whether a group is asked for a recovery fence.
pub fn serve_recovery_fence(group: GroupId, readable: bool, hosted: bool) -> (r: Option<
    RecoveryFenceReply,
>)
    ensures
        match (r, fence_refusal(group, readable, hosted)) {
            (None, None) => true,
            (Some(reply), Some(v)) => reply@ == v,
            _ => false,
        },
{
    match group {
        GroupId::Data(p) => if !readable {
            Some(RecoveryFenceReply::Rejected("malformed recovery-fence request".to_owned()))
        } else if !hosted {
            let mut s = prefixed("partition ", to_decimal(p as u128).as_str());
            s.append(" is not hosted on this node");
            Some(RecoveryFenceReply::Rejected(s))
        } else {
            None
        },
        GroupId::Meta => Some(
            RecoveryFenceReply::Rejected("malformed recovery-fence request".to_owned()),
        ),
    }
}

/// What is answered to a directory query without a confirmed read, if anything:
/// `known` is this node's id and the leader it knows, if it runs the meta group.
pub fn begin_directory_query(
    known: Option<(NodeId, Option<NodeId>)>,
    local: Option<Vec<NodeDirectoryEntry>>,
) -> (r: Option<DirectoryQueryReply>)
    ensures
        match known {
            None => r matches Some(reply) && reply@ is Unavailable,
            Some((node, leader)) => if leader == Some(node) {
                r is None
            } else {
                r matches Some(reply) && reply@ == (DirectoryReplyView::NotLeader {
                    leader,
                    directory_hint: hint_view(local),
                })
            },
        },
{
    match known {
        None => Some(DirectoryQueryReply::Unavailable),
        Some((node, leader)) => {
            let leads: bool = match leader {
                Some(l) => l == node,
                None => false,
            };
            if leads {
                None
            } else {
                Some(
                    DirectoryQueryReply::NotLeader { leader, directory_hint: hint(local) },
                )
            }
        },
    }
}

/// A local directory as a hint: empty if it could not be read.
pub open spec fn hint_view(local: Option<Vec<NodeDirectoryEntry>>) -> Seq<NodeEntryView> {
    match local {
        Some(d) => entry_views(d@),
        None => Seq::empty(),
    }
}

fn hint(local: Option<Vec<NodeDirectoryEntry>>) -> (d: Vec<NodeDirectoryEntry>)
    ensures
        entry_views(d@) == hint_view(local),
{
    match local {
        Some(d) => d,
        None => {
            let d: Vec<NodeDirectoryEntry> = Vec::new();
            assert(entry_views(d@) =~= Seq::<NodeEntryView>::empty());
            d
        },
    }
}

/// The answer to a directory query after a confirmed read was tried.
pub fn serve_directory_query(
    read: Result<MetaRead<Vec<NodeDirectoryEntry>>, Error>,
    local: Option<Vec<NodeDirectoryEntry>>,
) -> (reply: DirectoryQueryReply)
    ensures
        reply@ == match read {
            Ok(MetaRead::Value(d)) => DirectoryReplyView::Value(entry_views(d@)),
            Ok(MetaRead::NotLeader { leader }) => DirectoryReplyView::NotLeader {
                leader,
                directory_hint: hint_view(local),
            },
            Err(_) => DirectoryReplyView::Unavailable,
        },
{
    match read {
        Ok(MetaRead::Value(d)) => DirectoryQueryReply::Value(d),
        Ok(MetaRead::NotLeader { leader }) => DirectoryQueryReply::NotLeader {
            leader,
            directory_hint: hint(local),
        },
        Err(_) => DirectoryQueryReply::Unavailable,
    }
}

/// Take in a heartbeat. Only a node that runs the meta group keeps the evidence,
/// and one that cannot be read is none.
pub fn serve_heartbeat(
    tracker: &mut HeartbeatTracker,
    hosts_meta: bool,
    body: Option<HeartbeatBody>,
    now_ms: u64,
)
    requires
        old(tracker).valid(),
    ensures
        final(tracker).valid(),
        final(tracker)@ == match body {
            Some(b) => if hosts_meta {
                heard(
                    old(tracker)@,
                    b.node_id,
                    (b.incarnation, b.process_incarnation, b.seq),
                    now_ms,
                )
            } else {
                old(tracker)@
            },
            None => old(tracker)@,
        },
{
    if hosts_meta {
        if let Some(b) = body {
            tracker.observe(b.node_id, b.incarnation, b.process_incarnation, b.seq, now_ms);
        }
    }
}

/// Whether a group's bootstrap has got where a question asks. One to the meta
/// group asks for a committed placement; one to a data group, whether its
/// runtime here is initialized.
pub open spec fn bootstrap_ready(
    target: GroupId,
    group: GroupId,
    voters: Seq<NodeId>,
    read: Option<Result<MetaRead<Option<Placement>>, Error>>,
    initialized: Option<bool>,
) -> bool {
    match target {
        GroupId::Meta => match read {
            Some(Ok(MetaRead::Value(Some(p)))) => p@.voters == voters && p@.move_plan is None,
            _ => false,
        },
        GroupId::Data(_) => group == target && initialized == Some(true),
    }
}

/// Answer a question after a group's bootstrap.
pub fn serve_bootstrap_status(
    target: GroupId,
    body: Option<&BootstrapStatusBody>,
    read: Option<Result<MetaRead<Option<Placement>>, Error>>,
    initialized: Option<bool>,
) -> (ready: bool)
    ensures
        ready == match body {
            None => false,
            Some(b) => bootstrap_ready(target, b.group, b.voters@, read, initialized),
        },
{
    let b = match body {
        None => {
            return false;
        },
        Some(b) => b,
    };
    match target {
        GroupId::Meta => match read {
            Some(Ok(MetaRead::Value(Some(p)))) => {
                let settled: bool = match &p.move_plan {
                    None => true,
                    Some(_) => false,
                };
                settled && same_list(&p.voters, &b.voters)
            },
            _ => false,
        },
        GroupId::Data(_) => b.group == target && match initialized {
            Some(yes) => yes,
            None => false,
        },
    }
}

// -- laws --------------------------------------------------------------------

/// A frame of another cluster, or one that comes after this process was
/// superseded, reaches no handler, whatever its kind.
pub proof fn law_foreign_frames_reach_no_handler(
    own: ClusterId,
    open: bool,
    cluster_id: ClusterId,
    msg_type: MsgType,
)
    requires
        cluster_id != own || !open,
    ensures
        frame_target(own, open, cluster_id, msg_type) is Unavailable,
{
}

/// A handler of peer and operator frames is reached by a peer-control frame only,
/// and every peer-control frame of the cluster reaches one; every other frame
/// goes to the gateway.
pub proof fn law_control_and_client_frames_part(own: ClusterId, msg_type: MsgType)
    ensures
        frame_target(own, true, own, msg_type) is Control <==> msg_type.spec_peer_control(),
        frame_target(own, true, own, msg_type) is Client <==> !msg_type.spec_peer_control(),
{
}

/// A placement is handed out only after the meta group confirmed it.
pub proof fn law_placements_are_confirmed(
    readable: bool,
    read: Option<Result<MetaRead<Option<Placement>>, Error>>,
)
    requires
        confirmed_placement(readable, read) is Some,
    ensures
        read matches Some(Ok(MetaRead::Value(Some(_)))),
{
}

/// Each kind of control frame of this cluster reaches the one handler that is made
/// for it.
pub proof fn law_frames_reach_their_handler(own: ClusterId, m: MsgType)
    ensures
        ({
            let r = frame_target(own, true, own, m);
            &&& r == FrameRoute::Control(Handler::Raft) <==> m == MsgType::RaftAppend || m
                == MsgType::RaftVote || m == MsgType::RaftSnapshot
            &&& r == FrameRoute::Control(Handler::Observation) <==> m
                == MsgType::DataConfigObservation
            &&& r == FrameRoute::Control(Handler::Join) <==> m == MsgType::JoinRequest
            &&& r == FrameRoute::Control(Handler::Leave) <==> m == MsgType::LeaveRequest
            &&& r == FrameRoute::Control(Handler::AbortPlan) <==> m == MsgType::AbortPlanRequest
            &&& r == FrameRoute::Control(Handler::BootstrapStatus) <==> m
                == MsgType::BootstrapStatus
            &&& r == FrameRoute::Control(Handler::PlacementQuery) <==> m == MsgType::PlacementQuery
            &&& r == FrameRoute::Control(Handler::DirectoryQuery) <==> m == MsgType::DirectoryQuery
            &&& r == FrameRoute::Control(Handler::RecoveryFence) <==> m
                == MsgType::DataRecoveryFence
            &&& r == FrameRoute::Control(Handler::Heartbeat) <==> m == MsgType::Heartbeat
            &&& r == FrameRoute::Control(Handler::BecomeLearner) <==> m == MsgType::BecomeLearner
            &&& r == FrameRoute::Control(Handler::SearchPrepare) <==> m == MsgType::SearchPrepare
            &&& r == FrameRoute::Control(Handler::SearchExecute) <==> m == MsgType::SearchExecute
            &&& r == FrameRoute::Control(Handler::SearchIndexStatus) <==> m
                == MsgType::SearchIndexStatus
            &&& r == FrameRoute::Control(Handler::SearchIndexAdmin) <==> m
                == MsgType::SearchIndexAdmin
            &&& r == FrameRoute::Control(Handler::TransferLeadership) <==> m
                == MsgType::TransferLeadership
            &&& r == FrameRoute::Client <==> m == MsgType::ClientOp || m == MsgType::SearchOp || m
                == MsgType::MetaQuery || m == MsgType::SearchCatalogQuery
        }),
{
}

/// A consensus call is served if and only if its group runs here in good health; it
/// is the call that its frame names.
pub proof fn law_consensus_calls_need_a_healthy_group(
    partition: u16,
    meta: Option<bool>,
    hosted: Seq<(u16, bool)>,
)
    requires
        forall|i: int, j: int|
            0 <= i < j < hosted.len() ==> (#[trigger] hosted[i]).0 != (#[trigger] hosted[j]).0,
    ensures
        runs_healthy(GroupId::Meta, meta, hosted) <==> meta == Some(true),
        runs_healthy(GroupId::Data(partition), meta, hosted) <==> hosted.contains(
            (partition, true),
        ),
        raft_call(MsgType::RaftAppend) is Append,
        raft_call(MsgType::RaftVote) is Vote,
        raft_call(MsgType::RaftSnapshot) is Snapshot,
    decreases hosted.len(),
{
    if hosted.len() > 0 {
        let rest = hosted.skip(1);
        assert forall|i: int, j: int| 0 <= i < j < rest.len() implies (#[trigger] rest[i]).0 != (
        #[trigger] rest[j]).0 by {
            assert(hosted[i + 1].0 != hosted[j + 1].0);
        }
        law_consensus_calls_need_a_healthy_group(partition, meta, rest);
        if rest.contains((partition, true)) {
            let k = rest.index_of((partition, true));
            assert(hosted[k + 1] == (partition, true));
            assert(hosted[0].0 != hosted[k + 1].0);
        }
        if hosted.contains((partition, true)) {
            let k = hosted.index_of((partition, true));
            if k > 0 {
                assert(rest[k - 1] == (partition, true));
            }
        }
    }
}

/// A proposal is answered with its outcome if and only if it was applied, and points
/// at a leader if and only if this node does not lead.
pub proof fn law_submissions_are_answered(
    report: Option<Result<ProposeOutcome, Error>>,
    leader: Option<NodeId>,
)
    ensures
        submitted(report) is Outcome <==> (report matches Some(Ok(ProposeOutcome::Applied(_)))),
        report matches Some(Ok(ProposeOutcome::Applied(outcome))) ==> submitted(report)
            == SubmitReplyView::Outcome(outcome@),
        submitted(report) == (SubmitReplyView::NotLeader { leader }) <==> (report matches Some(
            Ok(ProposeOutcome::NotLeader { leader: l }),
        ) && l == leader),
{
}

/// A node leaves by draining at its registered incarnation; without a registration
/// it does not.
pub proof fn law_leaving_is_draining(
    node: Option<NodeId>,
    entry: Option<Result<Option<u64>, Error>>,
    node_id: NodeId,
    incarnation: u64,
)
    ensures
        leave_command(node, entry) is Ok <==> node is Some && entry is Some && entry->0 is Ok
            && entry->0->Ok_0 is Some,
        node == Some(node_id) && entry == Some(Ok::<Option<u64>, Error>(Some(incarnation)))
            ==> leave_command(node, entry) == Ok::<MetaCommandView, SubmitReplyView>(
            MetaCommandView::SetNodeState { node_id, state: NodeState::Draining, incarnation },
        ),
{
}

/// Index requests become the catalog commands of the same name, for the engine's own
/// revision.
pub proof fn law_index_requests_become_commands(name: Seq<char>, definition: DefinitionView)
    ensures
        index_command(SearchIndexAdminView::Create { name, definition }) == (
        MetaCommandView::CreateSearchIndexWithRevision {
            name,
            definition,
            engine_revision: SEARCH_ENGINE_REVISION,
        }),
        index_command(SearchIndexAdminView::Rebuild { name, definition }) == (
        MetaCommandView::CreateSearchIndexGenerationWithRevision {
            name,
            definition,
            engine_revision: SEARCH_ENGINE_REVISION,
        }),
        index_command(SearchIndexAdminView::Drop { name }) == (MetaCommandView::DropSearchIndex {
            name,
        }),
{
}

/// What a node may be asked: to learn a group only if it can host that kind; for a
/// search or a recovery fence only on a data partition that it hosts.
pub proof fn law_requests_need_a_host(
    group: GroupId,
    hosts_meta: bool,
    hosts_data: bool,
    search: bool,
    hosted: bool,
    readable: bool,
)
    ensures
        cannot_host(group, hosts_meta, hosts_data) is None <==> (group is Meta && hosts_meta) || (
        group is Data && hosts_data),
        not_searchable(group, search, hosted) is None <==> group is Data && search && hosted,
        fence_refusal(group, readable, hosted) is None <==> group is Data && readable && hosted,
{
}

/// A placement is given out if and only if the request can be read and a confirmed
/// read found it.
pub proof fn law_placement_answers(
    readable: bool,
    read: Option<Result<MetaRead<Option<Placement>>, Error>>,
)
    ensures
        confirmed_placement(readable, read) is Some <==> readable && (read matches Some(
            Ok(MetaRead::Value(Some(_))),
        )),
        readable && (read matches Some(Ok(MetaRead::Value(Some(_))))) ==> confirmed_placement(
            readable,
            read,
        ) == Some((read->0->Ok_0->Value_0->0)@),
{
}

/// A group counts as founded if and only if, for the meta group, a confirmed read
/// finds it settled on exactly the voters asked about and, for a data group, the
/// question is about that group and it is initialized here.
pub proof fn law_founded_groups(
    target: GroupId,
    group: GroupId,
    voters: Seq<NodeId>,
    read: Option<Result<MetaRead<Option<Placement>>, Error>>,
    initialized: Option<bool>,
)
    ensures
        target is Data ==> (bootstrap_ready(target, group, voters, read, initialized) <==> group
            == target && initialized == Some(true)),
        target is Meta ==> (bootstrap_ready(target, group, voters, read, initialized) <==> (
        confirmed_placement(true, read) is Some && confirmed_placement(true, read)->0.voters
            == voters && confirmed_placement(true, read)->0.move_plan is None)),
{
}

/// A request is turned into a command only where it asks for that command, and refused
/// only with the refusal that is due.
pub proof fn law_requests_are_asked_for(
    r: Result<MetaCommand, SubmitReply>,
    want: Result<MetaCommandView, SubmitReplyView>,
)
    requires
        asks(r, want),
    ensures
        r is Ok <==> want is Ok,
        r is Ok ==> r->Ok_0@ == want->Ok_0,
        r is Err ==> r->Err_0@ == want->Err_0,
{
}

} // verus!
