//! The node-side gateway: which client frames are accepted, and what each is
//! answered. Peer-control frames are refused here, so no client can submit a
//! plan or a change of membership.
use crate::api::ops::{
    check_partition, partition_check, value_view, visible_reply, ClientReply, ClientReplyView,
    ClientRequest, ClientRequestView, Redirect, RedirectView, RejectFrame, RoutingInfo,
    RoutingView, WriteReply,
};
use crate::error::Error;
use crate::hashing::partition_of_key;
use crate::partition::node::{ReadOutcome, WriteOutcome};
use crate::text::prefixed;
use crate::transport::{Envelope, EnvelopeView, MsgType};
use crate::types::{
    ClusterId, Consistency, DataOp, DataOpView, DataRequest, DataRequestView, GroupId, HashSpec,
    IfVersion, NodeId,
};
use vstd::prelude::*;

verus! {

/// Where a client's routing snapshot comes from.
pub trait RoutingSource: Send + Sync {
    fn routing(&self) -> RoutingInfo;
}

/// Where a client frame goes.
pub enum GatewayRoute {
    /// Answered at once.
    Reply(ClientReply),
    /// Answered with the routing snapshot.
    Routing,
    /// An operation on a key.
    Operation,
}

#[verifier::ext_equal]
pub enum GatewayRouteView {
    Reply(ClientReplyView),
    Routing,
    Operation,
}

impl View for GatewayRoute {
    type V = GatewayRouteView;

    open spec fn view(&self) -> GatewayRouteView {
        match self {
            GatewayRoute::Reply(r) => GatewayRouteView::Reply(r@),
            GatewayRoute::Routing => GatewayRouteView::Routing,
            GatewayRoute::Operation => GatewayRouteView::Operation,
        }
    }
}

/// What is done with an accepted operation.
pub enum OperationStep {
    /// Answered without touching the group.
    Reply(ClientReply),
    Write(DataRequest),
    Read { key: Vec<u8>, consistency: Consistency },
}

#[verifier::ext_equal]
pub enum OperationStepView {
    Reply(ClientReplyView),
    Write(DataRequestView),
    Read { key: Seq<u8>, consistency: Consistency },
}

impl View for OperationStep {
    type V = OperationStepView;

    open spec fn view(&self) -> OperationStepView {
        match self {
            OperationStep::Reply(r) => OperationStepView::Reply(r@),
            OperationStep::Write(data) => OperationStepView::Write(data@),
            OperationStep::Read { key, consistency } => OperationStepView::Read {
                key: key@,
                consistency: *consistency,
            },
        }
    }
}

/// A gateway in front of the partitions of one node.
#[derive(Debug, Clone, Copy, PartialEq, Eq, Structural)]
pub struct ClientGateway {
    pub cluster_id: ClusterId,
    pub p: u16,
    pub hash_spec: HashSpec,
}

/// Where a frame goes. One of another cluster is answered with an error, under
/// this node's cluster id.
pub open spec fn frame_route(g: ClientGateway, cluster_id: ClusterId, msg_type: MsgType) -> GatewayRouteView {
    if cluster_id != g.cluster_id {
        GatewayRouteView::Reply(ClientReplyView::Error("wrong cluster"@))
    } else if msg_type.spec_peer_control() {
        GatewayRouteView::Reply(
            ClientReplyView::Error(RejectFrame::PeerControlOnClientPath.text()),
        )
    } else {
        match msg_type {
            MsgType::MetaQuery => GatewayRouteView::Routing,
            MsgType::ClientOp => GatewayRouteView::Operation,
            other => GatewayRouteView::Reply(
                ClientReplyView::Error("unsupported client msg_type "@ + other.spec_label()),
            ),
        }
    }
}

/// Where a client may go instead of here.
pub open spec fn redirect_to(
    g: ClientGateway,
    leader: Option<NodeId>,
    routing: RoutingView,
    partition: u16,
) -> ClientReplyView {
    ClientReplyView::Redirect(
        RedirectView {
            cluster_id: g.cluster_id,
            leader,
            candidates: routing.candidates(partition),
        },
    )
}

/// Whether an operation is a delete that asks for an absent key, which means
/// nothing.
pub open spec fn absent_delete(req: ClientRequestView) -> bool {
    req matches ClientRequestView::Mutate(data) && data.op is Delete && data.op.if_version()
        == Some(IfVersion::Absent)
}

/// What is done with an operation on a partition of this node, or of another.
pub open spec fn operation_step(
    g: ClientGateway,
    req: ClientRequestView,
    partition: u16,
    hosted: bool,
    routing: RoutingView,
) -> OperationStepView {
    if !hosted {
        OperationStepView::Reply(redirect_to(g, None, routing, partition))
    } else if absent_delete(req) {
        OperationStepView::Reply(
            ClientReplyView::Refused("delete does not support if_version=Absent"@),
        )
    } else {
        match req {
            ClientRequestView::Mutate(data) => OperationStepView::Write(data),
            ClientRequestView::Read { key, consistency } => OperationStepView::Read {
                key,
                consistency,
            },
        }
    }
}

impl ClientGateway {
    pub fn new(cluster_id: ClusterId, p: u16, hash_spec: HashSpec) -> (g: ClientGateway)
        ensures
            g == (ClientGateway { cluster_id, p, hash_spec }),
    {
        ClientGateway { cluster_id, p, hash_spec }
    }

    /// Decide where a client frame goes.
    pub fn serve(&self, request: &Envelope) -> (r: GatewayRoute)
        ensures
            r@ == frame_route(*self, request.cluster_id, request.msg_type),
    {
        if request.cluster_id != self.cluster_id {
            return GatewayRoute::Reply(ClientReply::Error("wrong cluster".to_owned()));
        }
        if request.msg_type.is_peer_control() {
            return GatewayRoute::Reply(
                ClientReply::Error(RejectFrame::PeerControlOnClientPath.to_text()),
            );
        }
        match request.msg_type {
            MsgType::MetaQuery => GatewayRoute::Routing,
            MsgType::ClientOp => GatewayRoute::Operation,
            other => GatewayRoute::Reply(
                ClientReply::Error(prefixed("unsupported client msg_type ", other.label())),
            ),
        }
    }

    /// The answer to a client's operation, under this node's cluster id.
    pub fn client_reply(&self, request: &Envelope, body: Vec<u8>) -> (e: Envelope)
        ensures
            e@ == (EnvelopeView {
                cluster_id: self.cluster_id,
                msg_type: MsgType::ClientOp,
                group_id: request.group_id,
                request_id: request.request_id,
                payload: body@,
            }),
    {
        Envelope::new(
            self.cluster_id,
            MsgType::ClientOp,
            request.group_id,
            request.request_id,
            body,
        )
    }

    /// The answer to a routing query.
    pub fn routing_reply(&self, request: &Envelope, body: Vec<u8>) -> (e: Envelope)
        ensures
            e@ == (EnvelopeView {
                cluster_id: self.cluster_id,
                msg_type: MsgType::MetaQuery,
                group_id: GroupId::Meta,
                request_id: request.request_id,
                payload: body@,
            }),
    {
        Envelope::new(
            self.cluster_id,
            MsgType::MetaQuery,
            GroupId::Meta,
            request.request_id,
            body,
        )
    }

    /// The answer to an operation that cannot be read.
    pub fn malformed(&self, detail: &str) -> (r: ClientReply)
        ensures
            r@ == ClientReplyView::Refused("malformed ClientOp: "@ + detail@),
    {
        ClientReply::Refused(prefixed("malformed ClientOp: ", detail))
    }

    /// The partition that an operation belongs to, or its refusal.
    pub fn partition_for(&self, req: &ClientRequest, group: GroupId) -> (r: Result<
        u16,
        ClientReply,
    >)
        requires
            self.p > 0,
        ensures
            match (
                r,
                partition_check(group, partition_of_key(self.hash_spec, req@.key(), self.p)),
            ) {
                (Ok(a), Ok(b)) => a == b,
                (Err(reply), Err(e)) => reply@ == ClientReplyView::Refused(e.text()),
                _ => false,
            },
    {
        match check_partition(req, group, self.p, &self.hash_spec) {
            Ok(partition) => Ok(partition),
            Err(e) => Err(ClientReply::Refused(e.to_text())),
        }
    }

    /// Tell a client where to ask instead.
    pub fn redirect(&self, leader: Option<NodeId>, partition: u16, routing: &RoutingInfo) -> (r:
        ClientReply)
        ensures
            r@ == redirect_to(*self, leader, routing@, partition),
    {
        ClientReply::Redirect(
            Redirect {
                cluster_id: self.cluster_id,
                leader,
                candidates: routing.candidates(partition),
            },
        )
    }

    /// Decide what is done with an operation on its partition.
    pub fn handle_client_op(
        &self,
        req: ClientRequest,
        partition: u16,
        hosted: bool,
        routing: &RoutingInfo,
    ) -> (step: OperationStep)
        ensures
            step@ == operation_step(*self, req@, partition, hosted, routing@),
    {
        if !hosted {
            return OperationStep::Reply(self.redirect(None, partition, routing));
        }
        match req {
            ClientRequest::Mutate(data) => {
                let absent: bool = match &data.op {
                    DataOp::Delete { if_version: Some(IfVersion::Absent), .. } => true,
                    _ => false,
                };
                if absent {
                    return OperationStep::Reply(
                        ClientReply::Refused(
                            "delete does not support if_version=Absent".to_owned(),
                        ),
                    );
                }
                OperationStep::Write(data)
            },
            ClientRequest::Read { key, consistency } => OperationStep::Read { key, consistency },
        }
    }

    /// The answer to a write that was submitted.
    pub fn finish_write(
        &self,
        outcome: Result<WriteOutcome, Error>,
        partition: u16,
        routing: &RoutingInfo,
    ) -> (r: ClientReply)
        ensures
            r@ == match outcome {
                Ok(WriteOutcome::Applied(result)) => ClientReplyView::Mutation(
                    visible_reply(result),
                ),
                Ok(WriteOutcome::NotLeader { leader }) => redirect_to(
                    *self,
                    leader,
                    routing@,
                    partition,
                ),
                Err(e) => ClientReplyView::Error("write failed: "@ + e@.text()),
            },
            r@ is Mutation <==> (outcome matches Ok(WriteOutcome::Applied(_))),
            r@ is Redirect <==> (outcome matches Ok(WriteOutcome::NotLeader { .. })),
            r@ is Error <==> outcome is Err,
    {
        match outcome {
            Ok(WriteOutcome::Applied(result)) => ClientReply::Mutation(
                WriteReply::from_apply(result),
            ),
            Ok(WriteOutcome::NotLeader { leader }) => self.redirect(leader, partition, routing),
            Err(e) => ClientReply::Error(prefixed("write failed: ", e.to_text().as_str())),
        }
    }

    /// The answer to a read. One that was refused for freshness is sent on like
    /// one that missed the leader.
    pub fn finish_read(
        &self,
        outcome: Result<ReadOutcome, Error>,
        partition: u16,
        routing: &RoutingInfo,
    ) -> (r: ClientReply)
        ensures
            r@ == match outcome {
                Ok(ReadOutcome::Value(v)) => ClientReplyView::Value(value_view(v)),
                Ok(ReadOutcome::NotLeader { leader }) => redirect_to(
                    *self,
                    leader,
                    routing@,
                    partition,
                ),
                Ok(ReadOutcome::TooStale { leader }) => redirect_to(
                    *self,
                    leader,
                    routing@,
                    partition,
                ),
                Err(e) => ClientReplyView::Error("read failed: "@ + e@.text()),
            },
            r@ is Value <==> (outcome matches Ok(ReadOutcome::Value(_))),
            r@ is Redirect <==> outcome is Ok && !(outcome matches Ok(ReadOutcome::Value(_))),
            r@ is Error <==> outcome is Err,
    {
        match outcome {
            Ok(ReadOutcome::Value(v)) => ClientReply::Value(v),
            Ok(ReadOutcome::NotLeader { leader }) => self.redirect(leader, partition, routing),
            Ok(ReadOutcome::TooStale { leader }) => self.redirect(leader, partition, routing),
            Err(e) => ClientReply::Error(prefixed("read failed: ", e.to_text().as_str())),
        }
    }
}

/// No client frame reaches a peer-control handler, and none of another cluster is
/// acted on.
pub proof fn law_clients_reach_client_handlers_only(
    g: ClientGateway,
    cluster_id: ClusterId,
    msg_type: MsgType,
)
    requires
        !(frame_route(g, cluster_id, msg_type) is Reply),
    ensures
        cluster_id == g.cluster_id,
        !msg_type.spec_peer_control(),
        msg_type is MetaQuery || msg_type is ClientOp,
{
}

/// A refusal comes before any proposal: an operation that is refused is never
/// handed to the group, and one that is written is hosted here and means
/// something.
pub proof fn law_refused_operations_are_not_proposed(
    g: ClientGateway,
    req: ClientRequestView,
    partition: u16,
    hosted: bool,
    routing: RoutingView,
    data: DataRequestView,
)
    requires
        operation_step(g, req, partition, hosted, routing) == OperationStepView::Write(data),
    ensures
        hosted,
        req == ClientRequestView::Mutate(data),
        !absent_delete(req),
{
}

/// A frame reaches the routing answer if and only if it is a routing query of this
/// cluster, and an operation if and only if it is a client operation of this
/// cluster; every other frame is answered with an error.
pub proof fn law_frames_are_routed(g: ClientGateway, cluster_id: ClusterId, msg_type: MsgType)
    ensures
        frame_route(g, cluster_id, msg_type) is Routing <==> cluster_id == g.cluster_id
            && msg_type == MsgType::MetaQuery,
        frame_route(g, cluster_id, msg_type) is Operation <==> cluster_id == g.cluster_id
            && msg_type == MsgType::ClientOp,
        frame_route(g, cluster_id, msg_type) matches GatewayRouteView::Reply(reply) ==> reply
            is Error,
{
}

/// An operation on a hosted partition is carried out as it was asked, except a
/// delete that asks for an absent key, which is refused; one on a partition that is
/// not hosted is sent on to the partition's candidates, with no leader named.
pub proof fn law_operations_are_carried_out(
    g: ClientGateway,
    req: ClientRequestView,
    partition: u16,
    hosted: bool,
    routing: RoutingView,
    data: DataRequestView,
    key: Seq<u8>,
    consistency: Consistency,
)
    ensures
        ({
            let step = operation_step(g, req, partition, hosted, routing);
            let barred = req matches ClientRequestView::Mutate(d) && (d.op matches DataOpView::Delete {
                if_version,
                ..
            } && if_version == Some(IfVersion::Absent));
            &&& step == OperationStepView::Write(data) <==> hosted && !barred && req
                == ClientRequestView::Mutate(data)
            &&& step == (OperationStepView::Read { key, consistency }) <==> hosted && req == (
            ClientRequestView::Read { key, consistency })
            &&& hosted && barred ==> (step matches OperationStepView::Reply(reply) && reply
                is Refused)
            &&& !hosted ==> (step matches OperationStepView::Reply(ClientReplyView::Redirect(r))
                && r.cluster_id == g.cluster_id && r.leader is None && r.candidates
                == routing.candidates(partition))
        }),
{
}

/// A redirect carries this cluster's id, the leader that is known, and the
/// partition's candidates.
pub proof fn law_redirects_name_the_leader(
    g: ClientGateway,
    leader: Option<NodeId>,
    routing: RoutingView,
    partition: u16,
)
    ensures
        redirect_to(g, leader, routing, partition) matches ClientReplyView::Redirect(r)
            && r.cluster_id == g.cluster_id && r.leader == leader && r.candidates
            == routing.candidates(partition),
{
}

} // verus!
