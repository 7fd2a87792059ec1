//! What the driver of moves decides.
use dal::error::Error;
use dal::meta::node::MetaRead;
use dal::meta::rebalancer::ResumeStep;
use dal::meta::state_machine::MetaApplyResult;
use dal::runtime::rebalance::{
    dead_target, drive_data_role, drive_meta_role, drive_meta_voters, genesis_confirmed,
    genesis_data_ready, handoff, indexes_confirmed, learner_admitted, learner_indexes_ready,
    local_answer, merge_authoritative_directory, next_stage, node_state, observation_taken,
    plan_data_moves, report_abort, report_finalize, should_reclaim, tick, usable_directory,
    GenesisCheck, IndexFence, MetaRole, MetaStep, MoveStage, Tick,
};
use dal::search::{SearchIndexDefinition, SearchIndexGeneration, SearchIndexRecord};
use dal::transport::{Envelope, MsgType};
use dal::types::{
    DataConfigObservation, GroupId, LogId, MetaCommand, MovePlan, NodeDirectoryEntry, NodeState,
    Placement, ProcessIdentityGate, RegistrationBinding,
};
use dal::wire::{LearnerReply, ObservationBody, SearchIndexStatusReply, SubmitReply};

fn node(node_id: u64, state: NodeState) -> NodeDirectoryEntry {
    NodeDirectoryEntry {
        node_id,
        control_addr: format!("c{node_id}"),
        bulk_addr: format!("b{node_id}"),
        state,
        incarnation: 1,
    }
}

fn actives(ids: &[u64]) -> Vec<NodeDirectoryEntry> {
    ids.iter().map(|id| node(*id, NodeState::Active)).collect()
}

fn placed(voters: &[u64], target: Option<&[u64]>, aborting: bool) -> Placement {
    Placement {
        voters: voters.to_vec(),
        voters_log_id: LogId::new(1, 1),
        move_plan: target.map(|t| MovePlan { plan_id: 6, target_voters: t.to_vec(), aborting }),
    }
}

#[test]
fn ticks_wait_for_bootstrap() {
    assert_eq!(tick(false, true), Tick::Stop);
    assert_eq!(tick(true, false), Tick::Recover);
    assert_eq!(tick(true, true), Tick::Full);
}

#[test]
fn a_superseded_process_stops() {
    let registration = |control: &str, incarnation| RegistrationBinding {
        cluster_id: 7,
        node_id: 1,
        control_addr: control.to_string(),
        bulk_addr: "b1".into(),
        directory_incarnation: incarnation,
    };
    let directory = actives(&[1, 2]);
    for (bound, used) in [
        (registration("c1", 1), true),
        (registration("c1", 2), false),
        (registration("moved", 1), false),
    ] {
        let mut gate = ProcessIdentityGate::default();
        assert_eq!(merge_authoritative_directory(&mut gate, 1, &bound, &directory), used);
        assert_eq!(gate.is_open(), used);
    }
    let mut gate = ProcessIdentityGate::default();
    assert!(merge_authoritative_directory(&mut gate, 9, &registration("x", 9), &directory));
    assert!(usable_directory(&Ok(MetaRead::Value(directory))));
    assert!(!usable_directory(&Ok(MetaRead::Value(Vec::new()))));
    assert!(!usable_directory(&Ok(MetaRead::NotLeader { leader: None })));
    assert!(!usable_directory(&Err(Error::Raft("x".to_string()))));
}

#[test]
fn an_inactive_leader_hands_over() {
    let mut directory = actives(&[1, 2, 3]);
    let meta = placed(&[1, 2, 3], None, false);
    assert_eq!(handoff(1, &directory, Some(&meta)), None);
    directory[0].state = NodeState::Draining;
    assert_eq!(handoff(1, &directory, Some(&meta)), Some(2));
    directory[1].state = NodeState::Suspect;
    assert_eq!(handoff(1, &directory, Some(&meta)), Some(3));
    assert_eq!(handoff(1, &directory, None), None);
    assert_eq!(handoff(9, &directory, Some(&meta)), None);
    assert_eq!(node_state(&directory, 2), Some(NodeState::Suspect));
    assert_eq!(node_state(&directory, 9), None);
}

#[test]
fn doomed_plans_are_aborted() {
    let mut directory = actives(&[1, 2, 3, 4]);
    let p = placed(&[1, 2, 3], Some(&[1, 2, 4]), false);
    assert_eq!(dead_target(&directory, &p), None);
    directory[3].state = NodeState::Down;
    assert_eq!(dead_target(&directory, &p), Some(6));
    assert_eq!(dead_target(&directory, &placed(&[1, 2, 3], Some(&[1, 2, 4]), true)), None);
    let planning = plan_data_moves(&directory, &vec![Some(p.clone())], 3);
    assert_eq!(
        planning.aborts,
        vec![MetaCommand::MarkAborting { group: GroupId::Data(0), plan_id: 6 }]
    );
    assert!(planning.plan.is_none());
    assert_eq!(drive_meta_voters(1, &directory, Some(&p)), MetaStep::Abort(6));
}

#[test]
fn one_move_is_planned_at_a_time() {
    let mut directory = actives(&[1, 2, 3, 4]);
    directory[2].state = NodeState::Down;
    let settled = placed(&[1, 2, 3], None, false);
    let moving = placed(&[1, 2, 3], Some(&[1, 2, 4]), false);
    let planning = plan_data_moves(&directory, &vec![Some(settled.clone())], 3);
    let plan = planning.plan.unwrap();
    assert_eq!(plan.group, GroupId::Data(0));
    assert_eq!(plan.target_voters, vec![1, 2, 4]);
    let both = vec![Some(settled.clone()), Some(moving)];
    assert!(plan_data_moves(&directory, &both, 3).plan.is_none());
    let unknown = vec![Some(settled.clone()), None];
    let planning = plan_data_moves(&directory, &unknown, 3);
    assert!(planning.plan.is_none());
    assert!(!planning.complete);
    assert_eq!(
        drive_meta_voters(1, &directory, Some(&settled)),
        MetaStep::Plan(vec![1, 2, 4])
    );
    // The leader does not replace itself, nor without a spare node.
    assert_eq!(drive_meta_voters(3, &directory, Some(&settled)), MetaStep::Nothing);
    directory.pop();
    assert_eq!(drive_meta_voters(1, &directory, Some(&settled)), MetaStep::Nothing);
    assert_eq!(drive_meta_voters(1, &directory, None), MetaStep::Nothing);
}

#[test]
fn the_meta_role_is_the_active_leaders() {
    let mut directory = actives(&[1, 2, 3, 4]);
    let settled = placed(&[1, 2, 3], None, false);
    let known = vec![Some(settled.clone())];
    let unknown = vec![None];
    let role = |leader, over, directory: &Vec<NodeDirectoryEntry>, placements| {
        drive_meta_role(1, leader, over, directory, placements, Some(&settled), 3)
    };
    assert_eq!(role(None, true, &directory, &known), MetaRole::Idle);
    assert_eq!(role(Some(2), true, &directory, &known), MetaRole::Idle);
    assert_eq!(role(Some(1), false, &directory, &known), MetaRole::Idle);
    let MetaRole::Plan { data, meta } = role(Some(1), true, &directory, &known) else {
        panic!("an active leader plans");
    };
    assert!(data.complete && data.plan.is_none());
    assert_eq!(meta, MetaStep::Nothing);

    directory[2].state = NodeState::Down;
    let MetaRole::Plan { data, meta } = role(Some(1), true, &directory, &known) else {
        panic!("an active leader plans");
    };
    assert_eq!(data.plan.unwrap().target_voters, vec![1, 2, 4]);
    assert_eq!(meta, MetaStep::Plan(vec![1, 2, 4]));
    let MetaRole::Plan { data, meta } = role(Some(1), true, &directory, &unknown) else {
        panic!("an active leader plans");
    };
    assert!(!data.complete);
    assert_eq!(meta, MetaStep::Nothing);

    directory[0].state = NodeState::Draining;
    assert_eq!(role(Some(1), true, &directory, &known), MetaRole::HandOff(2));
}

#[test]
fn genesis_is_asked_of_the_designated_voter() {
    let initial = vec![3, 1, 2];
    let p = placed(&[3, 1, 2], None, false);
    assert_eq!(genesis_data_ready(1, &initial, Some(&p)), GenesisCheck::Local);
    assert_eq!(genesis_data_ready(2, &initial, Some(&p)), GenesisCheck::Remote(1));
    assert_eq!(genesis_data_ready(2, &initial, None), GenesisCheck::NotReady);
    assert_eq!(
        genesis_data_ready(2, &initial, Some(&placed(&[3, 1, 4], None, false))),
        GenesisCheck::Past
    );
    assert_eq!(
        genesis_data_ready(2, &initial, Some(&placed(&[3, 1, 2], Some(&[3, 1, 4]), false))),
        GenesisCheck::Past
    );
    let reply = Envelope::new(7, MsgType::BootstrapStatus, GroupId::Data(0), 1, Vec::new());
    assert!(genesis_confirmed(7, &reply, Some(true)));
    assert!(!genesis_confirmed(8, &reply, Some(true)));
    assert!(!genesis_confirmed(7, &reply, Some(false)));
    assert!(!genesis_confirmed(7, &reply, None));
}

#[test]
fn only_the_leader_carries_a_plan_out() {
    let p = placed(&[1, 2, 3], Some(&[1, 2, 4]), false);
    let old = [1, 2, 3].into();
    assert_eq!(drive_data_role(1, Some(1), Some(&p), &old), ResumeStep::Move { plan_id: 6 });
    assert_eq!(drive_data_role(1, Some(2), Some(&p), &old), ResumeStep::Nothing);
    assert_eq!(drive_data_role(1, None, Some(&p), &old), ResumeStep::Nothing);
    assert_eq!(
        drive_data_role(1, Some(1), Some(&p), &[8, 9].into()),
        ResumeStep::Nothing
    );
}

#[test]
fn promotion_is_fenced() {
    let data = GroupId::Data(0);
    assert_eq!(next_stage(data, MoveStage::Admit, true), Some(MoveStage::AddLearner));
    assert_eq!(
        next_stage(data, MoveStage::AddLearner, true),
        Some(MoveStage::CheckIndexes)
    );
    assert_eq!(
        next_stage(GroupId::Meta, MoveStage::AddLearner, true),
        Some(MoveStage::ChangeVoters)
    );
    assert_eq!(next_stage(data, MoveStage::CheckIndexes, false), None);
    assert_eq!(next_stage(data, MoveStage::ChangeVoters, true), Some(MoveStage::Report));
    assert_eq!(next_stage(data, MoveStage::Report, true), None);
    assert!(learner_admitted(Some(&LearnerReply::Admitted)));
    assert!(!learner_admitted(Some(&LearnerReply::Error("x".into()))));
    assert!(!learner_admitted(None));
}

#[test]
fn reports_are_confirmed() {
    let group = GroupId::Data(0);
    let log = LogId::new(2, 9);
    let p = placed(&[1, 2, 3], Some(&[1, 2, 4]), true);
    let plan = p.move_plan.clone().unwrap();
    let observation = |voters: &[u64]| DataConfigObservation {
        group,
        plan_id: 6,
        voter_set: voters.to_vec(),
        config_log_id: log,
    };
    let target = vec![1, 2, 4];
    assert_eq!(
        report_finalize(group, 6, &target, Some(&(Some(log), vec![4, 2, 1]))),
        Some(ObservationBody::Finalize {
            group,
            plan_id: 6,
            observation: observation(&[1, 2, 4])
        })
    );
    assert_eq!(report_finalize(group, 6, &target, Some(&(Some(log), vec![1, 2, 3]))), None);
    assert_eq!(report_finalize(group, 6, &target, Some(&(None, vec![1, 2, 4]))), None);
    assert_eq!(report_finalize(group, 6, &target, None), None);
    for voters in [[1, 2, 3], [1, 2, 4]] {
        assert_eq!(
            report_abort(group, &p, &plan, Some(&(Some(log), voters.to_vec()))),
            Some(ObservationBody::Abort {
                group,
                plan_id: 6,
                observation: observation(&voters)
            })
        );
    }
    assert_eq!(report_abort(group, &p, &plan, Some(&(Some(log), vec![1, 2, 3, 4]))), None);
    assert!(observation_taken(Some(&SubmitReply::Outcome(MetaApplyResult::NoOp))));
    assert!(!observation_taken(Some(&SubmitReply::NotLeader { leader: None })));
    assert!(!observation_taken(None));
}

#[test]
fn learners_build_what_is_active() {
    let generation = |id| SearchIndexGeneration {
        id,
        engine_revision: 1,
        definition: SearchIndexDefinition { source: vec![], hash: [1; 32], defect: None },
        definition_hash: [1; 32],
    };
    let record = |name: &str, active| SearchIndexRecord {
        name: name.to_string(),
        active,
        building: Some(generation(99)),
        retiring: Vec::new(),
    };
    let catalog = vec![record("a", Some(generation(3))), record("b", None)];
    assert_eq!(learner_indexes_ready(None), IndexFence::Open);
    assert_eq!(learner_indexes_ready(Some(None)), IndexFence::Held);
    assert_eq!(learner_indexes_ready(Some(Some(&catalog[1..].to_vec()))), IndexFence::Open);
    assert_eq!(
        learner_indexes_ready(Some(Some(&catalog))),
        IndexFence::Ask(vec![("a".to_string(), 3, [1; 32])])
    );
    let status = |ready| SearchIndexStatusReply::Status { ready, detail: String::new() };
    assert!(indexes_confirmed(Some(&status(true))));
    assert!(!indexes_confirmed(Some(&status(false))));
    assert!(!indexes_confirmed(None));
}

#[test]
fn groups_are_given_up_only_when_settled() {
    assert!(should_reclaim(Some(&placed(&[1, 2, 3], None, false)), 4));
    assert!(!should_reclaim(Some(&placed(&[1, 2, 3], None, false)), 3));
    assert!(!should_reclaim(Some(&placed(&[1, 2, 3], Some(&[1, 2, 5]), false)), 4));
    assert!(!should_reclaim(None, 4));
    let p = placed(&[1, 2, 3], None, false);
    assert_eq!(
        local_answer(Some(Ok(MetaRead::Value(Some(p.clone()))))),
        Some(Some(p))
    );
    assert_eq!(local_answer(Some(Ok(MetaRead::NotLeader { leader: None }))), None);
    assert_eq!(local_answer(None), None);
}
