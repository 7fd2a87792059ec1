//! The messages that nodes and clients exchange.
use crate::types::{ClusterId, GroupId};
use vstd::prelude::*;

verus! {

/// The kind of a message.
#[derive(Debug, Clone, Copy, PartialEq, Eq, Structural)]
pub enum MsgType {
    RaftAppend,
    RaftVote,
    RaftSnapshot,
    DataRecoveryFence,
    ClientOp,
    SearchOp,
    SearchPrepare,
    SearchExecute,
    SearchIndexAdmin,
    SearchIndexStatus,
    SearchCatalogQuery,
    MetaQuery,
    PlacementQuery,
    DirectoryQuery,
    BootstrapStatus,
    Heartbeat,
    JoinRequest,
    LeaveRequest,
    BecomeLearner,
    DataConfigObservation,
    AbortPlanRequest,
    TransferLeadership,
}

impl MsgType {
    /// Whether only peers and operators send it: everything but what a client
    /// asks for.
    pub open spec fn spec_peer_control(self) -> bool {
        !(self is ClientOp || self is SearchOp || self is MetaQuery || self is SearchCatalogQuery)
    }

    /// The kind as messages show it.
    pub open spec fn spec_label(self) -> Seq<char> {
        match self {
            MsgType::RaftAppend => "RaftAppend"@,
            MsgType::RaftVote => "RaftVote"@,
            MsgType::RaftSnapshot => "RaftSnapshot"@,
            MsgType::DataRecoveryFence => "DataRecoveryFence"@,
            MsgType::ClientOp => "ClientOp"@,
            MsgType::SearchOp => "SearchOp"@,
            MsgType::SearchPrepare => "SearchPrepare"@,
            MsgType::SearchExecute => "SearchExecute"@,
            MsgType::SearchIndexAdmin => "SearchIndexAdmin"@,
            MsgType::SearchIndexStatus => "SearchIndexStatus"@,
            MsgType::SearchCatalogQuery => "SearchCatalogQuery"@,
            MsgType::MetaQuery => "MetaQuery"@,
            MsgType::PlacementQuery => "PlacementQuery"@,
            MsgType::DirectoryQuery => "DirectoryQuery"@,
            MsgType::BootstrapStatus => "BootstrapStatus"@,
            MsgType::Heartbeat => "Heartbeat"@,
            MsgType::JoinRequest => "JoinRequest"@,
            MsgType::LeaveRequest => "LeaveRequest"@,
            MsgType::BecomeLearner => "BecomeLearner"@,
            MsgType::DataConfigObservation => "DataConfigObservation"@,
            MsgType::AbortPlanRequest => "AbortPlanRequest"@,
            MsgType::TransferLeadership => "TransferLeadership"@,
        }
    }

    /// Whether only peers and operators send it.
    pub fn is_peer_control(self) -> (yes: bool)
        ensures
            yes == self.spec_peer_control(),
    {
        match self {
            MsgType::ClientOp => false,
            MsgType::SearchOp => false,
            MsgType::MetaQuery => false,
            MsgType::SearchCatalogQuery => false,
            _ => true,
        }
    }

    /// The kind as messages show it.
    pub fn label(self) -> (s: &'static str)
        ensures
            s@ == self.spec_label(),
    {
        match self {
            MsgType::RaftAppend => "RaftAppend",
            MsgType::RaftVote => "RaftVote",
            MsgType::RaftSnapshot => "RaftSnapshot",
            MsgType::DataRecoveryFence => "DataRecoveryFence",
            MsgType::ClientOp => "ClientOp",
            MsgType::SearchOp => "SearchOp",
            MsgType::SearchPrepare => "SearchPrepare",
            MsgType::SearchExecute => "SearchExecute",
            MsgType::SearchIndexAdmin => "SearchIndexAdmin",
            MsgType::SearchIndexStatus => "SearchIndexStatus",
            MsgType::SearchCatalogQuery => "SearchCatalogQuery",
            MsgType::MetaQuery => "MetaQuery",
            MsgType::PlacementQuery => "PlacementQuery",
            MsgType::DirectoryQuery => "DirectoryQuery",
            MsgType::BootstrapStatus => "BootstrapStatus",
            MsgType::Heartbeat => "Heartbeat",
            MsgType::JoinRequest => "JoinRequest",
            MsgType::LeaveRequest => "LeaveRequest",
            MsgType::BecomeLearner => "BecomeLearner",
            MsgType::DataConfigObservation => "DataConfigObservation",
            MsgType::AbortPlanRequest => "AbortPlanRequest",
            MsgType::TransferLeadership => "TransferLeadership",
        }
    }
}

/// A framed message.
#[derive(Debug, Clone, PartialEq, Eq)]
pub struct Envelope {
    pub cluster_id: ClusterId,
    pub msg_type: MsgType,
    pub group_id: GroupId,
    pub request_id: u64,
    pub payload: Vec<u8>,
}

/// The content of a framed message.
#[verifier::ext_equal]
pub struct EnvelopeView {
    pub cluster_id: ClusterId,
    pub msg_type: MsgType,
    pub group_id: GroupId,
    pub request_id: u64,
    pub payload: Seq<u8>,
}

impl View for Envelope {
    type V = EnvelopeView;

    open spec fn view(&self) -> EnvelopeView {
        EnvelopeView {
            cluster_id: self.cluster_id,
            msg_type: self.msg_type,
            group_id: self.group_id,
            request_id: self.request_id,
            payload: self.payload@,
        }
    }
}

impl Envelope {
    pub fn new(
        cluster_id: ClusterId,
        msg_type: MsgType,
        group_id: GroupId,
        request_id: u64,
        payload: Vec<u8>,
    ) -> (e: Envelope)
        ensures
            e@ == (EnvelopeView { cluster_id, msg_type, group_id, request_id, payload: payload@ }),
    {
        Envelope { cluster_id, msg_type, group_id, request_id, payload }
    }
}

/// Clients may send operations, searches, and the routing and catalog queries;
/// every other kind is for peers.
pub proof fn law_client_kinds(m: MsgType)
    ensures
        !m.spec_peer_control() <==> m == MsgType::ClientOp || m == MsgType::SearchOp || m
            == MsgType::MetaQuery || m == MsgType::SearchCatalogQuery,
{
}

} // verus!
