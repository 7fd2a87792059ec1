//! The meta group: its commands, its bootstrap and its moves.
use dal::error::Error;
use dal::meta::bootstrap::{
    accept as accept_seed, command_label, designated, ensure_bootstrap_group,
    ensure_learner_admission, record_data_bootstrap, record_meta_bootstrap, seed_cluster, seed_cluster_if_leader,
    BootstrapDescriptor, BootstrapOutcome, DirEntry,
};
use dal::meta::leader::{
    leading_replica, proposed, read_value, Awaited, LeaderStep, LeaderWait, MAX_ASKS,
};
use dal::meta::node::{
    begin_propose, linearizable, propose, remove_learner, scan_prefix, MetaRead, ProposeOutcome, ProposeReport,
};
use dal::meta::rebalancer::{
    accept, create_plan, drain_partition, drain_plan, drain_target, execute_abort, execute_move,
    finalize, plan_command, resume_move, ResumeStep,
};
use dal::meta::sm::{MetaEntry, MetaPayload, MetaRaftStateMachine};
use dal::meta::state::MetaState;
use dal::meta::state_machine::{MetaApplyResult, MetaReject, MetaStateMachine};
use dal::partition::node::LeaderCheck;
use dal::partition::raft_types::RaftLogId;
use dal::partition::sm::{snapshot_rows, StoredMembership};
use dal::search::{SearchIndexDefinition, SearchIndexReady, SEARCH_ENGINE_REVISION};
use dal::storage::Storage;
use dal::types::{
    BootstrapGroup, ClusterConfig, DataConfigObservation, GroupId, HashSpec, Identity,
    LearnerAdmission, LogId, MetaCommand, MovePlan, NodeState, Placement, PROTOCOL_VERSION,
};
use std::collections::BTreeSet;

const CLUSTER: u128 = 7;

fn config() -> ClusterConfig {
    ClusterConfig {
        cluster_id: CLUSTER,
        protocol_version: PROTOCOL_VERSION,
        p: 1,
        r: 3,
        hash_spec: HashSpec::CANONICAL,
    }
}

fn storage() -> Storage {
    Storage::new(Some(Identity { cluster_id: CLUSTER, node_id: 1 }))
}

fn init(meta_voters: Vec<u64>) -> MetaCommand {
    MetaCommand::ClusterInit { config: config(), meta_voters }
}

fn register(node_id: u64, tag: &str) -> MetaCommand {
    MetaCommand::RegisterNode {
        node_id,
        control_addr: format!("c{tag}"),
        bulk_addr: format!("b{tag}"),
    }
}

fn seed(voters: &[u64]) -> MetaCommand {
    MetaCommand::SeedPlacement { group: GroupId::Data(0), voters: voters.to_vec() }
}

fn plan(target: &[u64]) -> MetaCommand {
    plan_command(GroupId::Data(0), &target.to_vec())
}

/// A cluster of the nodes 1 to 4 with one partition on the first three.
fn cluster() -> Storage {
    let mut s = storage();
    let mut commands = vec![init(vec![1, 2, 3])];
    for id in 1..=4 {
        commands.push(register(id, &id.to_string()));
    }
    commands.push(seed(&[1, 2, 3]));
    for (i, cmd) in commands.iter().enumerate() {
        assert_eq!(run(&mut s, i as u64 + 1, cmd), MetaApplyResult::Applied);
    }
    s
}

fn run(s: &mut Storage, index: u64, cmd: &MetaCommand) -> MetaApplyResult {
    MetaStateMachine::new().apply(s, cmd, LogId::new(1, index)).unwrap()
}

fn refusal(s: &mut Storage, cmd: &MetaCommand) -> MetaReject {
    match run(s, 50, cmd) {
        MetaApplyResult::Rejected(reason) => reason,
        other => panic!("expected a refusal, got {other:?}"),
    }
}

fn invalid(text: &str) -> MetaReject {
    MetaReject::InvalidConfig(text.to_string())
}

fn illegal(text: &str) -> MetaReject {
    MetaReject::IllegalVoterChange(text.to_string())
}

fn observation(plan_id: u64, voters: &[u64]) -> DataConfigObservation {
    DataConfigObservation {
        group: GroupId::Data(0),
        plan_id,
        voter_set: voters.to_vec(),
        config_log_id: LogId::new(2, 99),
    }
}

fn finalize_plan(plan_id: u64, voters: &[u64]) -> MetaCommand {
    MetaCommand::FinalizePlan {
        group: GroupId::Data(0),
        plan_id,
        observation: observation(plan_id, voters),
    }
}

fn abort_plan(plan_id: u64, voters: &[u64]) -> MetaCommand {
    MetaCommand::AbortReport {
        group: GroupId::Data(0),
        plan_id,
        observation: observation(plan_id, voters),
    }
}

#[test]
fn a_cluster_is_founded_once() {
    let mut s = Storage::new(None);
    assert_eq!(
        refusal(&mut s, &init(vec![1, 2, 3])),
        invalid("cluster init requires a bound storage identity")
    );
    let mut s = storage();
    assert_eq!(refusal(&mut s, &register(1, "1")), MetaReject::ClusterNotInitialized);
    assert_eq!(refusal(&mut s, &seed(&[1, 2, 3])), MetaReject::ClusterNotInitialized);
    assert_eq!(refusal(&mut s, &plan(&[1, 2, 3])), MetaReject::ClusterNotInitialized);
    assert_eq!(refusal(&mut s, &init(vec![1, 2, 2])), invalid("duplicate meta voter"));
    assert_eq!(
        refusal(&mut s, &init(vec![1, 2, 3, 4])),
        invalid("meta voters must be an odd set of >= 3")
    );
    let wrong = |f: &dyn Fn(&mut ClusterConfig)| {
        let mut config = config();
        f(&mut config);
        MetaCommand::ClusterInit { config, meta_voters: vec![1, 2, 3] }
    };
    assert_eq!(
        refusal(&mut s, &wrong(&|c| c.cluster_id = 8)),
        invalid("cluster_id differs from the storage identity")
    );
    assert_eq!(
        refusal(&mut s, &wrong(&|c| c.protocol_version += 1)),
        invalid("unsupported protocol version")
    );
    assert_eq!(refusal(&mut s, &wrong(&|c| c.r = 1)), invalid("R below minimum"));
    assert_eq!(refusal(&mut s, &wrong(&|c| c.p = 0)), invalid("P must be non-zero"));
    assert_eq!(run(&mut s, 4, &init(vec![3, 1, 2])), MetaApplyResult::Applied);
    assert_eq!(s.meta.placement(GroupId::Meta).unwrap().voters, vec![1, 2, 3]);
    assert_eq!(run(&mut s, 5, &init(vec![2, 3, 1])), MetaApplyResult::NoOp);
    assert_eq!(refusal(&mut s, &init(vec![1, 2, 4])), MetaReject::ClusterConflict);
}

#[test]
fn nodes_register_and_rejoin() {
    let mut s = cluster();
    assert_eq!(run(&mut s, 20, &register(1, "1")), MetaApplyResult::NoOp);
    assert_eq!(refusal(&mut s, &register(0, "0")), invalid("node_id must be non-zero"));
    assert_eq!(
        refusal(&mut s, &register(9, "1")),
        invalid("node addresses are already registered to another node")
    );
    let same = MetaCommand::RegisterNode {
        node_id: 9,
        control_addr: "x".into(),
        bulk_addr: "x".into(),
    };
    assert_eq!(refusal(&mut s, &same), invalid("control_addr and bulk_addr must differ"));
    let empty = MetaCommand::RegisterNode {
        node_id: 9,
        control_addr: "".into(),
        bulk_addr: "x".into(),
    };
    assert_eq!(refusal(&mut s, &empty), invalid("node addresses must be non-empty"));
    let long = MetaCommand::RegisterNode {
        node_id: 9,
        control_addr: "é".repeat(257),
        bulk_addr: "x".into(),
    };
    assert_eq!(refusal(&mut s, &long), invalid("node addresses must be <= 512 bytes"));
    assert_eq!(run(&mut s, 21, &register(1, "1-moved")), MetaApplyResult::Applied);
    assert_eq!(s.meta.node(1).unwrap().incarnation, 2);
}

#[test]
fn incarnations_fence_state_changes() {
    let mut s = cluster();
    let set = |state, incarnation| MetaCommand::SetNodeState { node_id: 1, state, incarnation };
    let unknown = MetaCommand::SetNodeState {
        node_id: 9,
        state: NodeState::Down,
        incarnation: 1,
    };
    assert_eq!(refusal(&mut s, &unknown), MetaReject::UnknownNode);
    assert_eq!(refusal(&mut s, &set(NodeState::Down, 0)), MetaReject::StaleIncarnation);
    assert_eq!(run(&mut s, 20, &set(NodeState::Active, 1)), MetaApplyResult::NoOp);
    assert_eq!(run(&mut s, 21, &set(NodeState::Down, 1)), MetaApplyResult::Applied);
    assert_eq!(refusal(&mut s, &set(NodeState::Active, 1)), MetaReject::StaleIncarnation);
    assert_eq!(run(&mut s, 22, &register(1, "1")), MetaApplyResult::Applied);
    let node = s.meta.node(1).unwrap();
    assert_eq!((node.state, node.incarnation), (NodeState::Active, 2));
}

#[test]
fn placements_are_seeded_once() {
    let mut s = cluster();
    let meta = MetaCommand::SeedPlacement { group: GroupId::Meta, voters: vec![1, 2, 3] };
    assert_eq!(refusal(&mut s, &meta), MetaReject::SeedMetaForbidden);
    let outside = MetaCommand::SeedPlacement { group: GroupId::Data(1), voters: vec![1, 2, 3] };
    assert_eq!(
        refusal(&mut s, &outside),
        illegal("partition is outside the configured range")
    );
    assert_eq!(refusal(&mut s, &seed(&[1, 2, 2])), illegal("duplicate voter"));
    assert_eq!(
        refusal(&mut s, &seed(&[1, 2])),
        illegal("initial voters must number exactly R")
    );
    assert_eq!(refusal(&mut s, &seed(&[1, 2, 9])), MetaReject::IneligibleTarget);
    assert_eq!(run(&mut s, 20, &seed(&[3, 2, 1])), MetaApplyResult::NoOp);
    assert_eq!(refusal(&mut s, &seed(&[1, 2, 4])), MetaReject::PlacementConflict);
}

#[test]
fn a_move_runs_to_its_end() {
    let mut s = cluster();
    let group = GroupId::Data(0);
    let nowhere = MetaCommand::CreatePlan {
        group: GroupId::Data(5),
        plan_id: 0,
        target_voters: vec![1, 2, 3],
    };
    assert_eq!(refusal(&mut s, &nowhere), MetaReject::NoPlacement);
    assert_eq!(refusal(&mut s, &plan(&[1, 2, 2])), illegal("duplicate voter"));
    assert_eq!(
        refusal(&mut s, &plan(&[1, 2])),
        illegal("data target must have exactly R voters")
    );
    assert_eq!(
        refusal(&mut s, &plan(&[1, 2, 3])),
        illegal("data move must change exactly one voter")
    );
    assert_eq!(refusal(&mut s, &plan(&[1, 2, 9])), MetaReject::IneligibleTarget);
    assert_eq!(refusal(&mut s, &finalize_plan(20, &[1, 2, 4])), MetaReject::NoPlan);
    assert_eq!(run(&mut s, 20, &plan(&[4, 2, 1])), MetaApplyResult::Applied);
    assert_eq!(create_plan(s.meta.placement(group)), Ok(20));
    assert_eq!(refusal(&mut s, &plan(&[2, 3, 4])), MetaReject::PlanExists);
    assert_eq!(
        refusal(&mut s, &finalize_plan(21, &[1, 2, 4])),
        MetaReject::PlanIdMismatch
    );
    assert_eq!(
        refusal(&mut s, &finalize_plan(20, &[1, 2, 3])),
        MetaReject::ObservationMismatch
    );
    assert_eq!(refusal(&mut s, &abort_plan(20, &[1, 2, 3])), MetaReject::NotAborting);
    assert_eq!(run(&mut s, 30, &finalize_plan(20, &[4, 1, 2])), MetaApplyResult::Applied);
    let p = s.meta.placement(group).unwrap();
    assert_eq!(p.voters, vec![1, 2, 4]);
    assert_eq!(p.voters_log_id, LogId::new(2, 99));
    assert_eq!(p.move_plan, None);
}

#[test]
fn an_aborted_move_rolls_back() {
    let mut s = cluster();
    let group = GroupId::Data(0);
    let abort = |plan_id| MetaCommand::MarkAborting { group, plan_id };
    assert_eq!(refusal(&mut s, &abort(20)), MetaReject::NoPlan);
    assert_eq!(run(&mut s, 20, &plan(&[1, 2, 4])), MetaApplyResult::Applied);
    assert_eq!(refusal(&mut s, &abort(21)), MetaReject::PlanIdMismatch);
    assert_eq!(run(&mut s, 21, &abort(20)), MetaApplyResult::Applied);
    assert_eq!(run(&mut s, 22, &abort(20)), MetaApplyResult::NoOp);
    assert_eq!(
        refusal(&mut s, &finalize_plan(20, &[1, 2, 4])),
        MetaReject::PlanAborting
    );
    assert_eq!(run(&mut s, 23, &abort_plan(20, &[1, 2, 3])), MetaApplyResult::Applied);
    assert_eq!(s.meta.placement(group).unwrap().voters, vec![1, 2, 3]);
}

fn definition(tag: u8) -> SearchIndexDefinition {
    SearchIndexDefinition { source: vec![tag], hash: [tag; 32], defect: None }
}

fn create(tag: u8) -> MetaCommand {
    MetaCommand::CreateSearchIndexWithRevision {
        name: "i".into(),
        definition: definition(tag),
        engine_revision: SEARCH_ENGINE_REVISION,
    }
}

fn rebuild(tag: u8) -> MetaCommand {
    MetaCommand::CreateSearchIndexGenerationWithRevision {
        name: "i".into(),
        definition: definition(tag),
        engine_revision: SEARCH_ENGINE_REVISION,
    }
}

fn ready(generation: u64, tag: u8, node_id: u64, voters_log_id: LogId) -> MetaCommand {
    MetaCommand::ReportSearchIndexReady {
        name: "i".into(),
        observation: SearchIndexReady {
            generation,
            definition_hash: [tag; 32],
            engine_revision: SEARCH_ENGINE_REVISION,
            group: GroupId::Data(0),
            projection_epoch: 1,
            voters_log_id,
            node_id,
            source_log_id: LogId::new(1, 5),
        },
    }
}

fn activate(generation: u64) -> MetaCommand {
    MetaCommand::ActivateSearchIndexGeneration { name: "i".into(), generation }
}

#[test]
fn generations_are_built_and_retired() {
    let mut s = cluster();
    let name = "i".to_string();
    let at = s.meta.placement(GroupId::Data(0)).unwrap().voters_log_id;
    assert_eq!(refusal(&mut s, &rebuild(1)), MetaReject::SearchIndexNotFound);
    assert_eq!(refusal(&mut s, &activate(20)), MetaReject::SearchIndexNotFound);
    assert_eq!(refusal(&mut s, &ready(20, 1, 1, at)), MetaReject::SearchIndexNotFound);
    assert_eq!(run(&mut s, 20, &create(1)), MetaApplyResult::Applied);
    assert_eq!(run(&mut s, 21, &create(1)), MetaApplyResult::NoOp);
    assert_eq!(refusal(&mut s, &create(2)), MetaReject::SearchIndexExists);
    assert_eq!(refusal(&mut s, &rebuild(2)), MetaReject::SearchGenerationExists);
    assert_eq!(refusal(&mut s, &activate(19)), MetaReject::SearchGenerationMismatch);
    assert_eq!(refusal(&mut s, &activate(20)), MetaReject::SearchGenerationNotReady);
    assert_eq!(
        refusal(&mut s, &ready(20, 2, 1, at)),
        MetaReject::SearchGenerationMismatch
    );
    assert_eq!(
        refusal(&mut s, &ready(20, 1, 4, at)),
        MetaReject::ObservationMismatch
    );
    for node in 1..=3 {
        assert_eq!(run(&mut s, 30 + node, &ready(20, 1, node, at)), MetaApplyResult::Applied);
    }
    assert_eq!(run(&mut s, 34, &ready(20, 1, 3, at)), MetaApplyResult::NoOp);
    assert!(s.meta.claim(&name, 20, GroupId::Data(0), 3).is_some());
    assert_eq!(run(&mut s, 35, &activate(20)), MetaApplyResult::Applied);
    assert_eq!(run(&mut s, 36, &activate(20)), MetaApplyResult::NoOp);
    assert!(s.meta.claim(&name, 20, GroupId::Data(0), 3).is_none());

    assert_eq!(run(&mut s, 40, &rebuild(2)), MetaApplyResult::Applied);
    for node in 1..=3 {
        assert_eq!(run(&mut s, 40 + node, &ready(40, 2, node, at)), MetaApplyResult::Applied);
    }
    assert_eq!(run(&mut s, 45, &activate(40)), MetaApplyResult::Applied);
    assert_eq!(s.meta.index(&name).unwrap().retiring, vec![20]);

    let drop = MetaCommand::DropSearchIndex { name: name.clone() };
    let done = |generation| MetaCommand::FinalizeSearchIndexDrop { name: name.clone(), generation };
    assert_eq!(run(&mut s, 46, &drop), MetaApplyResult::Applied);
    assert_eq!(run(&mut s, 47, &drop), MetaApplyResult::NoOp);
    assert_eq!(s.meta.index(&name).unwrap().retiring, vec![20, 40]);
    assert_eq!(run(&mut s, 48, &done(99)), MetaApplyResult::NoOp);
    assert_eq!(run(&mut s, 48, &done(20)), MetaApplyResult::Applied);
    assert_eq!(run(&mut s, 49, &done(40)), MetaApplyResult::Applied);
    assert!(s.meta.index(&name).is_none());
}

#[test]
fn wrong_definitions_are_refused() {
    let mut s = cluster();
    let mut bad = definition(1);
    bad.defect = Some("no fields".into());
    let cmd = MetaCommand::CreateSearchIndex { name: "i".into(), definition: bad };
    assert_eq!(refusal(&mut s, &cmd), invalid("search: no fields"));
    let cmd = MetaCommand::CreateSearchIndex { name: "x".repeat(256), definition: definition(1) };
    assert!(matches!(refusal(&mut s, &cmd), MetaReject::InvalidConfig(_)));
}

#[test]
fn meta_entries_apply_in_order() {
    let at = |index| RaftLogId { term: 1, node_id: 1, index };
    let none = StoredMembership { log_id: None, voters: Vec::new() };
    let mut sm = MetaRaftStateMachine::new(storage(), None, none);
    let entries = vec![
        MetaEntry { log_id: at(1), payload: MetaPayload::Membership(vec![1, 2, 3]) },
        MetaEntry { log_id: at(2), payload: MetaPayload::Blank },
        MetaEntry { log_id: at(3), payload: MetaPayload::Normal(init(vec![1, 2, 3])) },
        MetaEntry { log_id: at(4), payload: MetaPayload::Normal(register(1, "1")) },
    ];
    assert_eq!(
        sm.apply(&entries),
        Ok(vec![
            MetaApplyResult::NoOp,
            MetaApplyResult::NoOp,
            MetaApplyResult::Applied,
            MetaApplyResult::Applied
        ])
    );
    let (applied, membership) = sm.applied_state();
    assert_eq!(applied, Some(at(4)));
    assert_eq!(membership.voters, vec![1, 2, 3]);
    assert_eq!(sm.storage().meta.directory().len(), 1);

    let rows = vec![(vec![1], vec![2, 3]), (vec![4], Vec::new())];
    let snapshot = sm.get_current_snapshot(&rows).unwrap();
    assert_eq!(snapshot.snapshot_id, "T1-N1-4");
    assert_eq!(snapshot.data, bincode::serialize(&rows).unwrap());
    assert_eq!(snapshot_rows(&snapshot.data), Ok(rows.clone()));
    let none = StoredMembership { log_id: None, voters: Vec::new() };
    let mut fresh = MetaRaftStateMachine::new(storage(), None, none);
    assert!(fresh.get_current_snapshot(&rows).is_none());
    fresh.install_snapshot(
        sm.snapshot_records(),
        snapshot.last_log_id,
        snapshot.last_membership,
    );
    assert_eq!(fresh.applied_state().0, Some(at(4)));
    assert_eq!(fresh.storage().meta.directory(), sm.storage().meta.directory());
    assert_eq!(fresh.snapshot_records(), sm.snapshot_records());
    // The cluster, its one node, and the meta placement.
    assert_eq!(fresh.snapshot_records().len(), 3);
}

fn descriptor() -> BootstrapDescriptor {
    BootstrapDescriptor {
        cluster_id: CLUSTER,
        config: config(),
        meta_voters: vec![1, 2, 3],
        directory: (1..=3)
            .map(|node_id| DirEntry {
                node_id,
                control_addr: format!("c{node_id}"),
                bulk_addr: format!("b{node_id}"),
            })
            .collect(),
        data_placements: vec![(0, vec![1, 2, 3])],
    }
}

#[test]
fn markers_are_resumable_and_never_fork() {
    assert_eq!(designated(&[]), None);
    assert_eq!(designated(&[5, 2, 9]), Some(2));
    let mut stores: Vec<(u64, Storage)> = (1..=4).map(|id| (id, storage())).collect();
    for _ in 0..2 {
        assert_eq!(record_meta_bootstrap(&mut stores, &descriptor()), Ok(()));
        assert_eq!(record_data_bootstrap(&mut stores, &descriptor()), Ok(()));
    }
    let marker = stores[0].1.bootstrap_group(GroupId::Meta).unwrap();
    assert_eq!(marker.members, vec![1, 2, 3]);
    assert!(stores[3].1.bootstrap_group(GroupId::Meta).is_none());
    assert!(stores[2].1.bootstrap_group(GroupId::Data(0)).is_some());
    let mut other = descriptor();
    other.meta_voters = vec![1, 2, 4];
    assert_eq!(
        record_meta_bootstrap(&mut stores, &other),
        Err(Error::Config("conflicting bootstrap record for Meta".to_string()))
    );

    let mut s = storage();
    let record = BootstrapGroup {
        cluster_id: CLUSTER,
        group: GroupId::Data(3),
        members: vec![1],
    };
    assert_eq!(ensure_bootstrap_group(&mut s, &record), Ok(BootstrapOutcome::Created));
    assert_eq!(
        ensure_bootstrap_group(&mut s, &record),
        Ok(BootstrapOutcome::AlreadyPresent)
    );
    let admission = LearnerAdmission { cluster_id: CLUSTER, group: GroupId::Data(4), plan_id: 1 };
    assert_eq!(ensure_learner_admission(&mut s, &admission), Ok(BootstrapOutcome::Created));
    let other = LearnerAdmission { plan_id: 2, ..admission };
    assert_eq!(
        ensure_learner_admission(&mut s, &other),
        Err(Error::Config("conflicting learner admission for Data(4)".to_string()))
    );
}

#[test]
fn seeding_can_be_retried() {
    let commands = seed_cluster(&descriptor());
    let labels: Vec<&str> = commands.iter().map(command_label).collect();
    assert_eq!(
        labels,
        vec![
            "ClusterInit",
            "RegisterNode",
            "RegisterNode",
            "RegisterNode",
            "SeedPlacement"
        ]
    );
    let mut s = storage();
    for round in 0..2 {
        for (i, cmd) in commands.iter().enumerate() {
            let result = run(&mut s, i as u64 + 1, cmd);
            assert_eq!(accept_seed(&result, "seed"), Ok(()));
            assert_eq!(result == MetaApplyResult::NoOp, round == 1);
        }
    }
    assert!(accept_seed(&MetaApplyResult::Rejected(MetaReject::NoPlan), "seed").is_err());
}

fn moving(aborting: bool) -> Placement {
    Placement {
        voters: vec![1, 2, 3],
        voters_log_id: LogId::new(1, 1),
        move_plan: Some(MovePlan { plan_id: 6, target_voters: vec![1, 2, 4], aborting }),
    }
}

#[test]
fn moves_resume_where_they_stand() {
    let old: BTreeSet<u64> = [1, 2, 3].into();
    let joint: BTreeSet<u64> = [1, 2, 3, 4].into();
    let new: BTreeSet<u64> = [1, 2, 4].into();
    let p = moving(false);
    assert_eq!(execute_move(Some(&p), &old), Ok(4));
    assert_eq!(
        execute_move(None, &old),
        Err(Error::Raft("no placement for move".to_string()))
    );
    assert!(execute_move(Some(&p), &new).is_err());
    assert_eq!(resume_move(None, &old), Ok(ResumeStep::Nothing));
    assert_eq!(resume_move(Some(&p), &old), Ok(ResumeStep::Move { plan_id: 6 }));
    assert_eq!(
        resume_move(Some(&p), &joint),
        Ok(ResumeStep::CompleteThenFinalize { plan_id: 6 })
    );
    assert_eq!(resume_move(Some(&p), &new), Ok(ResumeStep::Finalize { plan_id: 6 }));
    assert_eq!(
        resume_move(Some(&p), &[8, 9].into()),
        Err(Error::Raft("reconcile: committed config matches no plan phase".to_string()))
    );
    let p = moving(true);
    assert_eq!(resume_move(Some(&p), &old), Ok(ResumeStep::Abort { plan_id: 6 }));
    assert_eq!(
        resume_move(Some(&p), &joint),
        Ok(ResumeStep::CompleteThenAbort { plan_id: 6 })
    );
    assert_eq!(resume_move(Some(&p), &new), Ok(ResumeStep::Abort { plan_id: 6 }));
}

#[test]
fn aborts_report_what_is_committed() {
    let group = GroupId::Data(0);
    let log = Some(LogId::new(2, 99));
    let old: BTreeSet<u64> = [1, 2, 3].into();
    let p = moving(true);
    let steps = execute_abort(Some(&p), &old, log, group, 6).unwrap();
    assert_eq!(steps.learners, vec![4]);
    assert_eq!(steps.report, abort_plan(6, &[1, 2, 3]));
    let steps = execute_abort(Some(&p), &[1, 2, 4].into(), log, group, 6).unwrap();
    assert!(steps.learners.is_empty());
    assert_eq!(steps.report, abort_plan(6, &[1, 2, 4]));
    let text = |r: Result<_, Error>| match r {
        Err(Error::Raft(text)) => text,
        _ => panic!("expected an error"),
    };
    assert_eq!(
        text(execute_abort(Some(&p), &[1, 2, 3, 4].into(), log, group, 6)),
        "joint config in flight; leader must complete the change first"
    );
    assert_eq!(
        text(execute_abort(Some(&moving(false)), &old, log, group, 6)),
        "plan is not marked aborting"
    );
    assert_eq!(text(execute_abort(None, &old, log, group, 6)), "no placement for abort");
    assert_eq!(
        text(execute_abort(Some(&p), &old, None, group, 6)),
        "committed config has no log id"
    );
    assert_eq!(finalize(group, 6, &vec![1, 2, 4], log), Ok(finalize_plan(6, &[1, 2, 4])));
    assert!(finalize(group, 6, &vec![1, 2, 4], None).is_err());
}

#[test]
fn draining_swaps_one_voter() {
    assert_eq!(drain_target(&vec![1, 2, 9], 2, 4), vec![1, 4, 9]);
    assert_eq!(drain_plan(Some(&moving(false)), 1, 7), Ok(vec![2, 3, 7]));
    assert_eq!(
        drain_plan(None, 1, 7),
        Err(Error::Raft("no placement to drain".to_string()))
    );
    assert_eq!(
        drain_partition(3, Some(2)),
        Ok(MetaCommand::SetNodeState {
            node_id: 3,
            state: NodeState::Draining,
            incarnation: 2
        })
    );
    assert_eq!(
        drain_partition(3, None),
        Err(Error::Raft("draining node 3 not in directory".to_string()))
    );
    assert_eq!(leading_replica(&vec![(1, None), (2, Some(1)), (3, Some(3))]), Some(2));
    assert_eq!(leading_replica(&vec![(1, Some(2)), (2, Some(1))]), None);
    assert_eq!(
        accept(&MetaApplyResult::Rejected(MetaReject::NoPlan), "FinalizePlan"),
        Err(Error::Raft("FinalizePlan rejected: NoPlan".to_string()))
    );
}

#[test]
fn leaders_are_waited_for() {
    let mut wait = LeaderWait::begin();
    assert_eq!(wait.step(&vec![(1, None), (2, Some(2))]), LeaderStep::Ask(1));
    assert_eq!(wait.step(&vec![(1, Some(2))]), LeaderStep::Pause);
    let mut tried = 2;
    while wait.again() {
        tried += 1;
    }
    assert_eq!(tried, MAX_ASKS);
    assert_eq!(wait.step(&vec![(2, Some(2))]), LeaderStep::GiveUp);
    assert_eq!(
        Awaited::Command.given_up(),
        Error::Raft("no meta leader accepted the command".to_string())
    );
    assert_eq!(proposed(Ok(ProposeOutcome::NotLeader { leader: Some(1) })), None);
    assert_eq!(
        proposed(Ok(ProposeOutcome::Applied(MetaApplyResult::NoOp))),
        Some(Ok(MetaApplyResult::NoOp))
    );
    assert_eq!(read_value::<u8>(Ok(MetaRead::NotLeader { leader: None })), None);
    assert_eq!(read_value(Ok(MetaRead::Value(3))), Some(Ok(3)));
    assert_eq!(
        seed_cluster_if_leader(Ok(ProposeOutcome::NotLeader { leader: None })),
        Ok(false)
    );
    assert_eq!(
        seed_cluster_if_leader(Ok(ProposeOutcome::Applied(MetaApplyResult::NoOp))),
        Ok(true)
    );
    let refused = MetaApplyResult::Rejected(MetaReject::ClusterConflict);
    assert_eq!(
        seed_cluster_if_leader(Ok(ProposeOutcome::Applied(refused))),
        Err(Error::Config(
            "bootstrap bootstrap command rejected: ClusterConflict".to_string()
        ))
    );
}

#[test]
fn meta_answers_only_as_leader() {
    assert_eq!(
        propose(ProposeReport::Forward(Some(2))),
        Ok(ProposeOutcome::NotLeader { leader: Some(2) })
    );
    assert_eq!(
        propose(ProposeReport::Committed(MetaApplyResult::NoOp)),
        Ok(ProposeOutcome::Applied(MetaApplyResult::NoOp))
    );
    assert!(propose(ProposeReport::Failed("x".into())).is_err());
    assert_eq!(
        linearizable(None, LeaderCheck::Confirmed(None), Ok(5)),
        Ok(MetaRead::Value(5))
    );
    assert_eq!(
        linearizable(None, LeaderCheck::Forward(None), Ok(5)),
        Ok(MetaRead::NotLeader { leader: None })
    );
    assert_eq!(
        linearizable(None, LeaderCheck::Failed("x".into()), Ok(5)),
        Err(Error::Raft("x".to_string()))
    );
    let closed = Error::Raft("given up".to_string());
    assert_eq!(
        linearizable(Some(&closed), LeaderCheck::Confirmed(None), Ok(5)),
        Err(closed.clone())
    );
    assert_eq!(begin_propose(Some(&closed), register(1, "1")), Err(closed));
    assert_eq!(begin_propose(None, register(1, "1")), Ok(register(1, "1")));
    assert_eq!(remove_learner(&vec![4], &vec![1, 2], 4), Ok(true));
    assert_eq!(remove_learner(&vec![4], &vec![1, 2], 5), Ok(false));
    assert_eq!(
        remove_learner(&vec![4], &vec![1, 2], 2),
        Err(Error::Raft("remove_learner: node 2 is still a voter".to_string()))
    );
    let rows = vec![
        (b"a/1".to_vec(), vec![1]),
        (b"b/1".to_vec(), vec![2]),
        (b"a/2".to_vec(), vec![3]),
    ];
    assert_eq!(scan_prefix(&rows, b"a/"), vec![vec![1], vec![3]]);
}

#[test]
fn records_give_back_their_state() {
    let source = cluster().meta;
    let records = source.to_records();
    let copy = MetaState::from_records(records.clone());
    assert_eq!(copy.to_records(), records);
    assert_eq!(copy.directory(), source.directory());
    assert_eq!(copy.cluster, source.cluster);
    assert_eq!(copy.placements, source.placements);
    assert!(MetaState::from_records(Vec::new()).to_records().is_empty());
}
