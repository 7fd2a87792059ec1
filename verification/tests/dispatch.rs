//! Inbound frames and their answers.
use dal::api::gateway::ClientGateway;
use dal::error::Error;
use dal::meta::failure::HeartbeatTracker;
use dal::meta::node::{MetaRead, ProposeOutcome};
use dal::meta::state_machine::MetaApplyResult;
use dal::partition::node::RecoveryFenceReply;
use dal::runtime::directory::DirectoryQueryReply;
use dal::runtime::dispatch::{
    begin_directory_query, generations_reply, learner_reply, search_generations_ready,
    serve_abort_plan, serve_become_learner, serve_bootstrap_status, serve_control,
    serve_directory_query, serve_heartbeat, serve_join, serve_leave, serve_observation,
    serve_placement_query, serve_recovery_fence, serve_search_execute,
    serve_search_index_admin, serve_search_index_status, serve_search_prepare,
    serve_transfer_leadership, submit, submit_index_status, ExecuteBody, ExecuteStep, FrameRoute,
    Handler, IndexStatusStep, PrepareStep, RaftCall, RootDispatch,
};
use dal::search::{SearchIndexDefinition, SearchIndexReady, SEARCH_ENGINE_REVISION};
use dal::transport::{Envelope, MsgType};
use dal::types::{
    DataConfigObservation, GroupId, HashSpec, LogId, MetaCommand, MovePlan, NodeDirectoryEntry,
    NodeState, Placement, ProcessIdentityGate,
};
use dal::wire::{
    AbortPlanBody, BootstrapStatusBody, HeartbeatBody, JoinBody, LeadershipTransferReply,
    LearnerReply, ObservationBody, SearchIndexAdminBody, SearchIndexStatusBody,
    SearchIndexStatusReply, SubmitReply,
};

fn dispatch() -> RootDispatch {
    RootDispatch::new(7, ClientGateway::new(7, 1, HashSpec::CANONICAL))
}

fn error(text: &str) -> SubmitReply {
    SubmitReply::Error(text.to_string())
}

fn entry(node_id: u64) -> NodeDirectoryEntry {
    NodeDirectoryEntry {
        node_id,
        control_addr: format!("c{node_id}"),
        bulk_addr: format!("b{node_id}"),
        state: NodeState::Active,
        incarnation: 1,
    }
}

fn placed(voters: &[u64], moving: bool) -> Placement {
    Placement {
        voters: voters.to_vec(),
        voters_log_id: LogId::new(1, 1),
        move_plan: if moving {
            Some(MovePlan { plan_id: 1, target_voters: vec![9], aborting: false })
        } else {
            None
        },
    }
}

#[test]
fn foreign_peer_control_is_rejected_before_dispatch() {
    let request = Envelope::new(8, MsgType::JoinRequest, GroupId::Meta, 42, vec![1, 2, 3]);
    assert_eq!(dispatch().serve(&request), FrameRoute::Unavailable);
    let reply = dispatch().raft_unavailable(&request);
    assert_eq!(reply.cluster_id, 7);
    assert_eq!(reply.msg_type, MsgType::JoinRequest);
    assert_eq!(reply.request_id, 42);
    assert!(reply.payload.is_empty());
}

#[test]
fn frames_part_by_their_kind() {
    let at = |msg_type| Envelope::new(7, msg_type, GroupId::Meta, 1, Vec::new());
    assert_eq!(
        dispatch().serve(&at(MsgType::JoinRequest)),
        FrameRoute::Control(Handler::Join)
    );
    for client in [
        MsgType::ClientOp,
        MsgType::MetaQuery,
        MsgType::SearchOp,
        MsgType::SearchCatalogQuery,
    ] {
        assert_eq!(dispatch().serve(&at(client)), FrameRoute::Client);
        assert_eq!(serve_control(client), None);
    }
    let mut gate = ProcessIdentityGate::default();
    gate.fence();
    let fenced = dispatch().with_identity_gate(gate);
    assert_eq!(fenced.serve(&at(MsgType::ClientOp)), FrameRoute::Unavailable);
    assert_eq!(fenced.serve(&at(MsgType::RaftVote)), FrameRoute::Unavailable);
    let reply = dispatch().reply(&at(MsgType::Heartbeat), vec![5]);
    assert_eq!(reply.payload, vec![5]);
}

#[test]
fn every_control_frame_has_a_handler() {
    for (msg_type, handler) in [
        (MsgType::RaftAppend, Handler::Raft),
        (MsgType::RaftVote, Handler::Raft),
        (MsgType::RaftSnapshot, Handler::Raft),
        (MsgType::DataConfigObservation, Handler::Observation),
        (MsgType::JoinRequest, Handler::Join),
        (MsgType::LeaveRequest, Handler::Leave),
        (MsgType::AbortPlanRequest, Handler::AbortPlan),
        (MsgType::BootstrapStatus, Handler::BootstrapStatus),
        (MsgType::PlacementQuery, Handler::PlacementQuery),
        (MsgType::DirectoryQuery, Handler::DirectoryQuery),
        (MsgType::DataRecoveryFence, Handler::RecoveryFence),
        (MsgType::Heartbeat, Handler::Heartbeat),
        (MsgType::BecomeLearner, Handler::BecomeLearner),
        (MsgType::SearchPrepare, Handler::SearchPrepare),
        (MsgType::SearchExecute, Handler::SearchExecute),
        (MsgType::SearchIndexStatus, Handler::SearchIndexStatus),
        (MsgType::SearchIndexAdmin, Handler::SearchIndexAdmin),
        (MsgType::TransferLeadership, Handler::TransferLeadership),
    ] {
        assert!(msg_type.is_peer_control());
        assert_eq!(serve_control(msg_type), Some(handler));
    }
}

#[test]
fn replication_frames_need_a_healthy_group() {
    let d = dispatch();
    let frame = |msg_type: MsgType, group: GroupId| Envelope::new(7, msg_type, group, 3, vec![9]);
    let hosted = vec![(1u16, false), (2, true)];
    let empty = |msg_type: MsgType, group: GroupId| Envelope::new(7, msg_type, group, 3, vec![]);
    for (group, meta, healthy) in [
        (GroupId::Meta, None, false),
        (GroupId::Meta, Some(false), false),
        (GroupId::Meta, Some(true), true),
        (GroupId::Data(0), Some(true), false),
        (GroupId::Data(1), Some(true), false),
        (GroupId::Data(2), None, true),
    ] {
        for (msg_type, call) in [
            (MsgType::RaftAppend, RaftCall::Append),
            (MsgType::RaftVote, RaftCall::Vote),
            (MsgType::RaftSnapshot, RaftCall::Snapshot),
        ] {
            let got = d.serve_raft(&frame(msg_type, group), meta, &hosted);
            if healthy {
                assert_eq!(got, Ok(call));
            } else {
                assert_eq!(got, Err(empty(msg_type, group)));
            }
        }
    }
    let req = frame(MsgType::RaftVote, GroupId::Data(2));
    assert_eq!(d.raft_reply(&req, None), empty(MsgType::RaftVote, GroupId::Data(2)));
    assert_eq!(
        d.raft_reply(&req, Some(vec![4, 5])),
        Envelope::new(7, MsgType::RaftVote, GroupId::Data(2), 3, vec![4, 5])
    );
}

#[test]
fn index_status_frames_are_reports_or_questions() {
    assert_eq!(
        serve_search_index_status(None),
        IndexStatusStep::Reply(SearchIndexStatusReply::Submitted(error("malformed")))
    );
    let observation = SearchIndexReady {
        generation: 1,
        definition_hash: [5; 32],
        engine_revision: SEARCH_ENGINE_REVISION,
        group: GroupId::Data(2),
        projection_epoch: 1,
        voters_log_id: LogId::new(1, 1),
        node_id: 3,
        source_log_id: LogId::new(1, 4),
    };
    assert_eq!(
        serve_search_index_status(Some(SearchIndexStatusBody::Report {
            name: "idx".into(),
            observation
        })),
        IndexStatusStep::Submit(MetaCommand::ReportSearchIndexReady {
            name: "idx".into(),
            observation
        })
    );
    assert_eq!(
        serve_search_index_status(Some(SearchIndexStatusBody::Query {
            group: GroupId::Data(2),
            generations: vec![("idx".into(), 1, [5; 32])]
        })),
        IndexStatusStep::Look {
            group: GroupId::Data(2),
            generations: vec![("idx".into(), 1, [5; 32])]
        }
    );
    assert_eq!(
        submit_index_status(Some(Ok(ProposeOutcome::NotLeader { leader: Some(2) }))),
        SearchIndexStatusReply::Submitted(SubmitReply::NotLeader { leader: Some(2) })
    );
}

#[test]
fn commands_are_answered_with_their_outcome() {
    assert_eq!(submit(None), error("node does not run the meta group"));
    assert_eq!(
        submit(Some(Ok(ProposeOutcome::Applied(MetaApplyResult::NoOp)))),
        SubmitReply::Outcome(MetaApplyResult::NoOp)
    );
    assert_eq!(
        submit(Some(Ok(ProposeOutcome::NotLeader { leader: Some(3) }))),
        SubmitReply::NotLeader { leader: Some(3) }
    );
    assert_eq!(
        submit(Some(Err(Error::Raft("lost".to_string())))),
        error("raft: lost")
    );
}

#[test]
fn operator_frames_become_commands() {
    assert_eq!(serve_join(None), Err(error("malformed")));
    assert_eq!(
        serve_join(Some(JoinBody {
            node_id: 9,
            control_addr: "c".into(),
            bulk_addr: "b".into()
        })),
        Ok(MetaCommand::RegisterNode {
            node_id: 9,
            control_addr: "c".into(),
            bulk_addr: "b".into()
        })
    );
    assert_eq!(serve_leave(None, None), Err(error("malformed")));
    assert_eq!(
        serve_leave(Some(4), None),
        Err(error("node does not run the meta group"))
    );
    assert_eq!(
        serve_leave(Some(4), Some(Ok(None))),
        Err(error("node 4 is not registered"))
    );
    assert_eq!(
        serve_leave(Some(4), Some(Err(Error::Config("x".to_string())))),
        Err(error("configuration invalid: x"))
    );
    assert_eq!(
        serve_leave(Some(4), Some(Ok(Some(6)))),
        Ok(MetaCommand::SetNodeState {
            node_id: 4,
            state: NodeState::Draining,
            incarnation: 6
        })
    );
    assert_eq!(serve_abort_plan(None), Err(error("malformed")));
    assert_eq!(
        serve_abort_plan(Some(AbortPlanBody { group: GroupId::Data(1), plan_id: 8 })),
        Ok(MetaCommand::MarkAborting { group: GroupId::Data(1), plan_id: 8 })
    );
}

#[test]
fn observations_become_commands() {
    let observation = DataConfigObservation {
        group: GroupId::Data(1),
        plan_id: 8,
        voter_set: vec![1, 2],
        config_log_id: LogId::new(3, 4),
    };
    assert_eq!(serve_observation(None), Err(error("malformed")));
    assert_eq!(
        serve_observation(Some(ObservationBody::Finalize {
            group: GroupId::Data(1),
            plan_id: 8,
            observation: observation.clone(),
        })),
        Ok(MetaCommand::FinalizePlan {
            group: GroupId::Data(1),
            plan_id: 8,
            observation: observation.clone()
        })
    );
    assert_eq!(
        serve_observation(Some(ObservationBody::Abort {
            group: GroupId::Data(1),
            plan_id: 8,
            observation: observation.clone(),
        })),
        Ok(MetaCommand::AbortReport { group: GroupId::Data(1), plan_id: 8, observation })
    );
}

#[test]
fn catalog_commands_carry_the_engine_revision() {
    let definition = SearchIndexDefinition { source: vec![1], hash: [0; 32], defect: None };
    assert_eq!(serve_search_index_admin(None), Err(error("malformed")));
    assert_eq!(
        serve_search_index_admin(Some(SearchIndexAdminBody::Create {
            name: "a".into(),
            definition: definition.clone(),
        })),
        Ok(MetaCommand::CreateSearchIndexWithRevision {
            name: "a".into(),
            definition: definition.clone(),
            engine_revision: SEARCH_ENGINE_REVISION,
        })
    );
    assert_eq!(
        serve_search_index_admin(Some(SearchIndexAdminBody::Rebuild {
            name: "a".into(),
            definition: definition.clone(),
        })),
        Ok(MetaCommand::CreateSearchIndexGenerationWithRevision {
            name: "a".into(),
            definition,
            engine_revision: SEARCH_ENGINE_REVISION,
        })
    );
    assert_eq!(
        serve_search_index_admin(Some(SearchIndexAdminBody::Drop { name: "a".into() })),
        Ok(MetaCommand::DropSearchIndex { name: "a".into() })
    );
}

#[test]
fn leadership_and_admission_replies() {
    assert_eq!(
        serve_transfer_leadership(None),
        LeadershipTransferReply::Error("node does not run the meta group".to_string())
    );
    assert_eq!(
        serve_transfer_leadership(Some(Ok(()))),
        LeadershipTransferReply::Triggered
    );
    assert_eq!(
        serve_transfer_leadership(Some(Err(Error::Raft("x".to_string())))),
        LeadershipTransferReply::Error("raft: x".to_string())
    );
    assert_eq!(serve_become_learner(GroupId::Meta, true, false), Ok(()));
    assert_eq!(
        serve_become_learner(GroupId::Meta, false, true),
        Err(Error::Raft("node cannot host the meta group".to_string()))
    );
    assert_eq!(
        serve_become_learner(GroupId::Data(0), true, false),
        Err(Error::Raft("node cannot host data partitions".to_string()))
    );
    assert_eq!(learner_reply(None), LearnerReply::Error("malformed".to_string()));
    assert_eq!(learner_reply(Some(Ok(()))), LearnerReply::Admitted);
    assert_eq!(
        learner_reply(Some(Err(Error::Raft("x".to_string())))),
        LearnerReply::Error("raft: x".to_string())
    );
}

#[test]
fn search_phases_are_routed() {
    let data = GroupId::Data(2);
    assert_eq!(serve_search_prepare(data, true, true, true), PrepareStep::Serve(2));
    assert_eq!(serve_search_prepare(data, true, false, false), PrepareStep::NotLeader);
    assert_eq!(
        serve_search_prepare(data, true, true, false),
        PrepareStep::Error("search service is not configured".to_string())
    );
    for step in [
        serve_search_prepare(data, false, true, true),
        serve_search_prepare(GroupId::Meta, true, true, true),
    ] {
        assert_eq!(
            step,
            PrepareStep::Error("SearchPrepare must address a data partition".to_string())
        );
    }
    assert_eq!(serve_search_execute(Ok(ExecuteBody::Execute), true), ExecuteStep::Execute);
    assert_eq!(
        serve_search_execute(Ok(ExecuteBody::Release { session_id: 3 }), true),
        ExecuteStep::Release { session_id: 3 }
    );
    assert_eq!(
        serve_search_execute(Ok(ExecuteBody::Execute), false),
        ExecuteStep::Error("search service is not configured".to_string())
    );
    assert_eq!(
        serve_search_execute(Err("eof".to_string()), true),
        ExecuteStep::Error("malformed SearchExecute: eof".to_string())
    );
}

#[test]
fn generations_are_reported_up_to_the_first_that_is_missing() {
    let not_ready = |detail: &str| SearchIndexStatusReply::Status {
        ready: false,
        detail: detail.to_string(),
    };
    assert_eq!(
        search_generations_ready(GroupId::Meta, true, true),
        Some(not_ready("search readiness requires a data partition"))
    );
    assert_eq!(
        search_generations_ready(GroupId::Data(4), false, true),
        Some(not_ready("search service is not configured"))
    );
    assert_eq!(
        search_generations_ready(GroupId::Data(4), true, false),
        Some(not_ready("partition 4 is not hosted here"))
    );
    assert_eq!(search_generations_ready(GroupId::Data(4), true, true), None);
    assert_eq!(
        generations_reply(None),
        SearchIndexStatusReply::Status { ready: true, detail: String::new() }
    );
    assert_eq!(
        generations_reply(Some((
            &"a".to_string(),
            7,
            &Error::Search("behind".to_string())
        ))),
        not_ready("a/7: search: behind")
    );
}

#[test]
fn placements_are_handed_out_only_when_confirmed() {
    let p = placed(&[1, 2, 3], false);
    assert_eq!(
        serve_placement_query(true, Some(Ok(MetaRead::Value(Some(p.clone()))))),
        Some(p.clone())
    );
    assert_eq!(
        serve_placement_query(false, Some(Ok(MetaRead::Value(Some(p))))),
        None
    );
    assert_eq!(serve_placement_query(true, Some(Ok(MetaRead::Value(None)))), None);
    assert_eq!(
        serve_placement_query(true, Some(Ok(MetaRead::NotLeader { leader: Some(1) }))),
        None
    );
    assert_eq!(
        serve_placement_query(true, Some(Err(Error::Raft("x".to_string())))),
        None
    );
    assert_eq!(serve_placement_query(true, None), None);
}

#[test]
fn fences_are_asked_of_hosted_groups() {
    let malformed = RecoveryFenceReply::Rejected("malformed recovery-fence request".to_string());
    assert_eq!(serve_recovery_fence(GroupId::Data(3), true, true), None);
    assert_eq!(serve_recovery_fence(GroupId::Data(3), false, true), Some(malformed.clone()));
    assert_eq!(serve_recovery_fence(GroupId::Meta, true, true), Some(malformed));
    assert_eq!(
        serve_recovery_fence(GroupId::Data(3), true, false),
        Some(RecoveryFenceReply::Rejected(
            "partition 3 is not hosted on this node".to_string()
        ))
    );
}

#[test]
fn only_the_leader_gives_the_directory() {
    assert!(matches!(
        begin_directory_query(None, None),
        Some(DirectoryQueryReply::Unavailable)
    ));
    assert!(begin_directory_query(Some((1, Some(1))), None).is_none());
    match begin_directory_query(Some((1, Some(2))), Some(vec![entry(2)])) {
        Some(DirectoryQueryReply::NotLeader { leader, directory_hint }) => {
            assert_eq!(leader, Some(2));
            assert_eq!(directory_hint, vec![entry(2)]);
        }
        _ => panic!("expected a hint"),
    }
    match begin_directory_query(Some((1, None)), None) {
        Some(DirectoryQueryReply::NotLeader { leader, directory_hint }) => {
            assert_eq!(leader, None);
            assert!(directory_hint.is_empty());
        }
        _ => panic!("expected a hint"),
    }
    match serve_directory_query(Ok(MetaRead::Value(vec![entry(1)])), None) {
        DirectoryQueryReply::Value(d) => assert_eq!(d, vec![entry(1)]),
        _ => panic!("expected the directory"),
    }
    assert!(matches!(
        serve_directory_query(Ok(MetaRead::NotLeader { leader: Some(4) }), None),
        DirectoryQueryReply::NotLeader { leader: Some(4), .. }
    ));
    assert!(matches!(
        serve_directory_query(Err(Error::Raft("x".to_string())), None),
        DirectoryQueryReply::Unavailable
    ));
}

#[test]
fn heartbeats_count_where_meta_runs() {
    let mut tracker = HeartbeatTracker::new();
    let beat = HeartbeatBody { node_id: 5, incarnation: 1, process_incarnation: 1, seq: 1 };
    serve_heartbeat(&mut tracker, false, Some(beat), 100);
    assert_eq!(tracker.nodes_held(), 0);
    serve_heartbeat(&mut tracker, true, None, 100);
    assert_eq!(tracker.nodes_held(), 0);
    serve_heartbeat(&mut tracker, true, Some(beat), 100);
    assert_eq!(tracker.last_seen(5), Some(100));
}

#[test]
fn bootstrap_is_confirmed_by_placement_or_runtime() {
    let body = BootstrapStatusBody { group: GroupId::Data(0), voters: vec![1, 2, 3] };
    let read = |p: Placement| Some(Ok(MetaRead::Value(Some(p))));
    let meta = GroupId::Meta;
    assert!(serve_bootstrap_status(meta, Some(&body), read(placed(&[1, 2, 3], false)), None));
    assert!(!serve_bootstrap_status(meta, Some(&body), read(placed(&[1, 2, 4], false)), None));
    assert!(!serve_bootstrap_status(meta, Some(&body), read(placed(&[1, 2, 3], true)), None));
    assert!(!serve_bootstrap_status(meta, Some(&body), None, Some(true)));
    assert!(!serve_bootstrap_status(meta, None, read(placed(&[1, 2, 3], false)), None));
    assert!(serve_bootstrap_status(GroupId::Data(0), Some(&body), None, Some(true)));
    assert!(!serve_bootstrap_status(GroupId::Data(0), Some(&body), None, Some(false)));
    assert!(!serve_bootstrap_status(GroupId::Data(0), Some(&body), None, None));
    assert!(!serve_bootstrap_status(GroupId::Data(1), Some(&body), None, Some(true)));
}

#[test]
fn a_fence_reaches_the_dispatcher_at_once() {
    let request = Envelope::new(7, MsgType::JoinRequest, GroupId::Meta, 0, vec![]);
    let mut root = dispatch();
    assert_eq!(root.serve(&request), FrameRoute::Control(Handler::Join));
    root.identity_gate.fence();
    assert_eq!(root.serve(&request), FrameRoute::Unavailable);
}
