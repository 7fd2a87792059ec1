//! The gateway's routing and answers, and the operations it carries.
use dal::api::gateway::{ClientGateway, GatewayRoute, OperationStep};
use dal::api::ops::{
    check_partition, find_node, match_partition, ClientReply, ClientRequest, Redirect, RejectFrame,
    RoutingInfo, WriteReply,
};
use dal::error::Error;
use dal::partition::node::{ReadOutcome, WriteOutcome};
use dal::partition::state_machine::{ApplyResult, RejectReason};
use dal::transport::{Envelope, MsgType};
use dal::types::{
    Consistency, DataOp, DataRequest, GroupId, HashSpec, IfVersion, KeyPresence, LogId, MovePlan,
    MutationResult, NodeDirectoryEntry, NodeState, Placement,
};

fn gateway() -> ClientGateway {
    ClientGateway::new(7, 4, HashSpec::CANONICAL)
}

fn routing() -> RoutingInfo {
    RoutingInfo {
        cluster_id: 7,
        p: 4,
        hash_spec: HashSpec::CANONICAL,
        directory: vec![NodeDirectoryEntry {
            node_id: 2,
            control_addr: "c2".into(),
            bulk_addr: "b2".into(),
            state: NodeState::Active,
            incarnation: 1,
        }],
        placements: vec![(
            1,
            Placement {
                voters: vec![1, 2, 3],
                voters_log_id: LogId::new(1, 9),
                move_plan: Some(MovePlan {
                    plan_id: 1,
                    target_voters: vec![1, 2, 4],
                    aborting: false,
                }),
            },
        )],
    }
}

fn frame(cluster_id: u128, msg_type: MsgType) -> Envelope {
    Envelope::new(cluster_id, msg_type, GroupId::Data(1), 5, Vec::new())
}

fn error_of(route: GatewayRoute) -> String {
    match route {
        GatewayRoute::Reply(ClientReply::Error(text)) => text,
        _ => panic!("expected an error"),
    }
}

fn redirect(leader: Option<u64>, candidates: Vec<u64>) -> ClientReply {
    ClientReply::Redirect(Redirect { cluster_id: 7, leader, candidates })
}

fn request(op: DataOp) -> ClientRequest {
    ClientRequest::Mutate(DataRequest { client_id: 1, sequence: 1, op })
}

#[test]
fn only_client_frames_pass() {
    let g = gateway();
    assert_eq!(error_of(g.serve(&frame(8, MsgType::ClientOp))), "wrong cluster");
    assert_eq!(
        error_of(g.serve(&frame(7, MsgType::JoinRequest))),
        RejectFrame::PeerControlOnClientPath.to_text()
    );
    assert!(matches!(g.serve(&frame(7, MsgType::MetaQuery)), GatewayRoute::Routing));
    assert!(matches!(g.serve(&frame(7, MsgType::ClientOp)), GatewayRoute::Operation));
    assert_eq!(
        error_of(g.serve(&frame(7, MsgType::SearchOp))),
        "unsupported client msg_type SearchOp"
    );
    let reply = g.client_reply(&frame(8, MsgType::JoinRequest), vec![1]);
    assert_eq!((reply.cluster_id, reply.msg_type), (7, MsgType::ClientOp));
    assert_eq!((reply.group_id, reply.request_id), (GroupId::Data(1), 5));
    let reply = g.routing_reply(&frame(7, MsgType::MetaQuery), vec![1]);
    assert_eq!((reply.group_id, reply.request_id), (GroupId::Meta, 5));
    assert_eq!(
        g.malformed("eof"),
        ClientReply::Refused("malformed ClientOp: eof".to_string())
    );
}

#[test]
fn keys_belong_to_their_partition() {
    let g = gateway();
    let req = ClientRequest::Read { key: b"k".to_vec(), consistency: Consistency::Linearizable };
    let home = HashSpec::CANONICAL.partition_of(b"k", 4);
    let other = (home + 1) % 4;
    assert_eq!(g.partition_for(&req, GroupId::Data(home)), Ok(home));
    assert_eq!(
        check_partition(&req, GroupId::Data(other), 4, &HashSpec::CANONICAL),
        Err(RejectFrame::MispartitionedKey {
            expected: GroupId::Data(home),
            got: GroupId::Data(other)
        })
    );
    assert_eq!(
        g.partition_for(&req, GroupId::Meta),
        Err(ClientReply::Refused(
            RejectFrame::NotADataPartition(GroupId::Meta).to_text()
        ))
    );
    assert_eq!(match_partition(GroupId::Data(3), 3), Ok(3));
}

#[test]
fn operations_are_proposed_where_they_can_be() {
    let g = gateway();
    let put = DataOp::Put { key: b"k".to_vec(), value: b"v".to_vec(), if_version: None };
    match g.handle_client_op(request(put.clone()), 1, false, &routing()) {
        OperationStep::Reply(reply) => assert_eq!(reply, redirect(None, vec![1, 2, 3, 4])),
        _ => panic!("another node hosts it"),
    }
    match g.handle_client_op(request(put.clone()), 1, true, &routing()) {
        OperationStep::Write(data) => assert_eq!(data.op, put),
        _ => panic!("a write is proposed"),
    }
    let absent = DataOp::Delete { key: b"k".to_vec(), if_version: Some(IfVersion::Absent) };
    match g.handle_client_op(request(absent), 1, true, &routing()) {
        OperationStep::Reply(reply) => assert_eq!(
            reply,
            ClientReply::Refused("delete does not support if_version=Absent".to_string())
        ),
        _ => panic!("a delete of nothing is refused"),
    }
    let read = ClientRequest::Read { key: b"k".to_vec(), consistency: Consistency::Linearizable };
    match g.handle_client_op(read, 1, true, &routing()) {
        OperationStep::Read { key, consistency } => {
            assert_eq!((key, consistency), (b"k".to_vec(), Consistency::Linearizable));
        }
        _ => panic!("a read is read"),
    }
}

#[test]
fn outcomes_become_answers() {
    let g = gateway();
    let applied = ApplyResult::Replayed(MutationResult::Applied { version: 3 });
    assert_eq!(
        g.finish_write(Ok(WriteOutcome::Applied(applied)), 1, &routing()),
        ClientReply::Mutation(WriteReply::Applied { version: 3 })
    );
    assert_eq!(
        g.finish_write(Ok(WriteOutcome::NotLeader { leader: Some(2) }), 1, &routing()),
        redirect(Some(2), vec![1, 2, 3, 4])
    );
    assert_eq!(
        g.finish_write(Err(Error::Raft("lost".to_string())), 1, &routing()),
        ClientReply::Error("write failed: raft: lost".to_string())
    );
    assert_eq!(
        g.finish_read(Ok(ReadOutcome::Value(Some((3, vec![1])))), 1, &routing()),
        ClientReply::Value(Some((3, vec![1])))
    );
    assert_eq!(
        g.finish_read(Ok(ReadOutcome::TooStale { leader: None }), 0, &routing()),
        redirect(None, vec![])
    );
    assert_eq!(
        g.finish_read(Err(Error::Raft("lost".to_string())), 1, &routing()),
        ClientReply::Error("read failed: raft: lost".to_string())
    );
}

#[test]
fn replays_read_alike() {
    let failed = MutationResult::ConditionFailed { current: KeyPresence::Absent };
    assert_eq!(
        WriteReply::from_apply(ApplyResult::Decided(failed)),
        WriteReply::from_apply(ApplyResult::Replayed(failed))
    );
    let gap = RejectReason::SequenceGap { expected: 1, got: 3 };
    assert_eq!(
        WriteReply::from_apply(ApplyResult::Rejected(gap)),
        WriteReply::Rejected(gap)
    );
    for reply in [
        WriteReply::Applied { version: 9 },
        WriteReply::ConditionFailed { current: KeyPresence::Present { version: 2 } },
        WriteReply::Rejected(gap),
    ] {
        assert_eq!(reply.label(), format!("{reply:?}"));
    }
    for reply in [
        redirect(Some(1), vec![1, 2]),
        ClientReply::Value(Some((1, vec![7]))),
        ClientReply::Refused("a \"b\"\n".to_string()),
        ClientReply::Error("x".to_string()),
    ] {
        assert_eq!(reply.label(), format!("{reply:?}"));
    }
    assert_eq!(redirect(None, vec![]).redirect_cluster(), Some(7));
    assert_eq!(ClientReply::Value(None).redirect_cluster(), None);
}

#[test]
fn snapshots_are_looked_up() {
    let r = routing();
    assert_eq!(r.control_addr(2), Some("c2"));
    assert_eq!(r.control_addr(3), None);
    assert_eq!(find_node(&r.directory, 2), Some(0));
    assert_eq!(find_node(&r.directory, 9), None);
    assert_eq!(r.candidates(1), vec![1, 2, 3, 4]);
    assert_eq!(r.candidates(2), Vec::<u64>::new());
    assert_eq!(r.placement_log_id(1), Some(LogId::new(1, 9)));
    assert!(r.placement(0).is_none());
}
