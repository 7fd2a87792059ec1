//! The bodies of peer and operator messages, and their answers.
use crate::meta::state_machine::{MetaApplyResult, ResultView};
use crate::search::{DefinitionHash, DefinitionView, SearchIndexDefinition, SearchIndexReady};
use crate::types::{
    DataConfigObservation, GroupId, MetaCommand, MetaCommandView, NodeId, ObservationView,
};
use vstd::prelude::*;

verus! {

/// A data leader's report on a plan.
#[derive(Debug, Clone, PartialEq, Eq)]
pub enum ObservationBody {
    /// The target configuration is committed.
    Finalize { group: GroupId, plan_id: u64, observation: DataConfigObservation },
    /// An aborting plan is resolved.
    Abort { group: GroupId, plan_id: u64, observation: DataConfigObservation },
}

/// The content of a report on a plan.
#[allow(inconsistent_fields)]
#[verifier::ext_equal]
pub enum ObservationBodyView {
    Finalize { group: GroupId, plan_id: u64, observation: ObservationView },
    Abort { group: GroupId, plan_id: u64, observation: ObservationView },
}

impl View for ObservationBody {
    type V = ObservationBodyView;

    open spec fn view(&self) -> ObservationBodyView {
        match self {
            ObservationBody::Finalize { group, plan_id, observation } => {
                ObservationBodyView::Finalize {
                    group: *group,
                    plan_id: *plan_id,
                    observation: observation@,
                }
            },
            ObservationBody::Abort { group, plan_id, observation } => ObservationBodyView::Abort {
                group: *group,
                plan_id: *plan_id,
                observation: observation@,
            },
        }
    }
}

impl ObservationBodyView {
    /// The command that the report stands for.
    pub open spec fn command(self) -> MetaCommandView {
        match self {
            ObservationBodyView::Finalize { group, plan_id, observation } => {
                MetaCommandView::FinalizePlan { group, plan_id, observation }
            },
            ObservationBodyView::Abort { group, plan_id, observation } => {
                MetaCommandView::AbortReport { group, plan_id, observation }
            },
        }
    }
}

impl ObservationBody {
    /// The command that the report stands for.
    pub fn into_meta_command(self) -> (c: MetaCommand)
        ensures
            c@ == self@.command(),
    {
        match self {
            ObservationBody::Finalize { group, plan_id, observation } => {
                MetaCommand::FinalizePlan { group, plan_id, observation }
            },
            ObservationBody::Abort { group, plan_id, observation } => MetaCommand::AbortReport {
                group,
                plan_id,
                observation,
            },
        }
    }
}

/// A request to register a node.
#[derive(Debug, Clone, PartialEq, Eq)]
pub struct JoinBody {
    pub node_id: NodeId,
    pub control_addr: String,
    pub bulk_addr: String,
}

/// A request to abort a plan.
#[derive(Debug, Clone, Copy, PartialEq, Eq, Structural)]
pub struct AbortPlanBody {
    pub group: GroupId,
    pub plan_id: u64,
}

/// A request to change the search catalog.
#[derive(Debug, Clone, PartialEq, Eq)]
pub enum SearchIndexAdminBody {
    Create { name: String, definition: SearchIndexDefinition },
    Rebuild { name: String, definition: SearchIndexDefinition },
    Drop { name: String },
}

/// The content of a request to change the search catalog.
#[allow(inconsistent_fields)]
#[verifier::ext_equal]
pub enum SearchIndexAdminView {
    Create { name: Seq<char>, definition: DefinitionView },
    Rebuild { name: Seq<char>, definition: DefinitionView },
    Drop { name: Seq<char> },
}

impl View for SearchIndexAdminBody {
    type V = SearchIndexAdminView;

    open spec fn view(&self) -> SearchIndexAdminView {
        match self {
            SearchIndexAdminBody::Create { name, definition } => SearchIndexAdminView::Create {
                name: name@,
                definition: definition@,
            },
            SearchIndexAdminBody::Rebuild { name, definition } => SearchIndexAdminView::Rebuild {
                name: name@,
                definition: definition@,
            },
            SearchIndexAdminBody::Drop { name } => SearchIndexAdminView::Drop { name: name@ },
        }
    }
}

/// A report of, or a question after, built search generations.
#[derive(Debug, Clone, PartialEq, Eq)]
pub enum SearchIndexStatusBody {
    Report { name: String, observation: SearchIndexReady },
    Query { group: GroupId, generations: Vec<(String, u64, DefinitionHash)> },
}

/// A heartbeat.
#[derive(Debug, Clone, Copy, PartialEq, Eq, Structural)]
pub struct HeartbeatBody {
    pub node_id: NodeId,
    pub incarnation: u64,
    pub process_incarnation: u64,
    pub seq: u64,
}

/// A question after a group's bootstrap.
#[derive(Debug, Clone, PartialEq, Eq)]
pub struct BootstrapStatusBody {
    pub group: GroupId,
    pub voters: Vec<NodeId>,
}

/// The answer to a submitted command.
#[derive(Debug, Clone, PartialEq, Eq)]
pub enum SubmitReply {
    Outcome(MetaApplyResult),
    NotLeader { leader: Option<NodeId> },
    Error(String),
}

/// The content of an answer to a submitted command.
#[verifier::ext_equal]
pub enum SubmitReplyView {
    Outcome(ResultView),
    NotLeader { leader: Option<NodeId> },
    Error(Seq<char>),
}

impl View for SubmitReply {
    type V = SubmitReplyView;

    open spec fn view(&self) -> SubmitReplyView {
        match self {
            SubmitReply::Outcome(result) => SubmitReplyView::Outcome(result@),
            SubmitReply::NotLeader { leader } => SubmitReplyView::NotLeader { leader: *leader },
            SubmitReply::Error(text) => SubmitReplyView::Error(text@),
        }
    }
}

/// The answer to a request to become a learner.
#[derive(Debug, Clone, PartialEq, Eq)]
pub enum LearnerReply {
    Admitted,
    Error(String),
}

/// The content of an answer to a request to become a learner.
#[verifier::ext_equal]
pub enum LearnerReplyView {
    Admitted,
    Error(Seq<char>),
}

impl View for LearnerReply {
    type V = LearnerReplyView;

    open spec fn view(&self) -> LearnerReplyView {
        match self {
            LearnerReply::Admitted => LearnerReplyView::Admitted,
            LearnerReply::Error(text) => LearnerReplyView::Error(text@),
        }
    }
}

/// The answer to a request to campaign.
#[derive(Debug, Clone, PartialEq, Eq)]
pub enum LeadershipTransferReply {
    Triggered,
    Error(String),
}

/// The content of an answer to a request to campaign.
#[verifier::ext_equal]
pub enum TransferView {
    Triggered,
    Error(Seq<char>),
}

impl View for LeadershipTransferReply {
    type V = TransferView;

    open spec fn view(&self) -> TransferView {
        match self {
            LeadershipTransferReply::Triggered => TransferView::Triggered,
            LeadershipTransferReply::Error(text) => TransferView::Error(text@),
        }
    }
}

/// The answer to a report of, or a question after, built search generations.
#[derive(Debug, Clone, PartialEq, Eq)]
pub enum SearchIndexStatusReply {
    Submitted(SubmitReply),
    Status { ready: bool, detail: String },
}

/// The content of an answer about built search generations.
#[verifier::ext_equal]
pub enum SearchStatusView {
    Submitted(SubmitReplyView),
    Status { ready: bool, detail: Seq<char> },
}

impl View for SearchIndexStatusReply {
    type V = SearchStatusView;

    open spec fn view(&self) -> SearchStatusView {
        match self {
            SearchIndexStatusReply::Submitted(reply) => SearchStatusView::Submitted(reply@),
            SearchIndexStatusReply::Status { ready, detail } => SearchStatusView::Status {
                ready: *ready,
                detail: detail@,
            },
        }
    }
}

/// A finished move and an aborted one are reported as what they are, with the
/// observation as it was made.
pub proof fn law_observations_become_commands(
    group: GroupId,
    plan_id: u64,
    observation: ObservationView,
)
    ensures
        ObservationBodyView::command(
            ObservationBodyView::Finalize { group, plan_id, observation },
        ) == (MetaCommandView::FinalizePlan { group, plan_id, observation }),
        ObservationBodyView::command(
            ObservationBodyView::Abort { group, plan_id, observation },
        ) == (MetaCommandView::AbortReport { group, plan_id, observation }),
{
}

} // verus!
