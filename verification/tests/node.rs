//! The life of a node process.
use dal::config::{NodeConfig, Timeouts};
use dal::error::Error;
use dal::meta::bootstrap::{BootstrapDescriptor, DirEntry};
use dal::runtime::node::{
    admit_learner, admit_meta_learner, begin_registration, bind_authoritative_registration,
    data_genesis_step, directory_states, failure_detector, fence_answers, fence_source,
    heartbeat_interval_nanos, meta_genesis_pause, meta_genesis_step, meta_seed_timeout,
    meta_seeded_locally, peer_seeded, placement_answer, placement_seed_timeout, placement_seeded,
    plan_start, reclaim_group, record_start_markers, registration_seeds, require_identity_open,
    resolve_registration_binding, should_initialize, shutdown_outcome, start,
    validate_node_descriptor, verify_learner_plan, GenesisStep, HeartbeatEmitter,
    RegistrationStep,
};
use dal::storage::{check_identity, Storage};
use dal::time::Duration;
use dal::transport::{Envelope, MsgType};
use dal::types::{
    BootstrapGroup, ClusterConfig, GroupId, HashSpec, Identity, LearnerAdmission, LogId, MetaCommand,
    MovePlan, NodeDirectoryEntry, NodeId, NodeState, Placement, ProcessIdentityGate,
    RegistrationBinding, ServingState, PROTOCOL_VERSION,
};

fn descriptor() -> BootstrapDescriptor {
    BootstrapDescriptor {
        cluster_id: 7,
        config: ClusterConfig {
            cluster_id: 7,
            protocol_version: PROTOCOL_VERSION,
            p: 1,
            r: 3,
            hash_spec: HashSpec::CANONICAL,
        },
        meta_voters: vec![1, 2, 3],
        directory: (1..=3)
            .map(|node_id| DirEntry {
                node_id,
                control_addr: format!("tcp://node-{node_id}-control"),
                bulk_addr: format!("tcp://node-{node_id}-bulk"),
            })
            .collect(),
        data_placements: vec![(0, vec![1, 2, 3])],
    }
}

fn config(node_id: NodeId) -> NodeConfig {
    NodeConfig {
        cluster_id: 7,
        node_id,
        control_addr: "tcp://node-1-control".into(),
        bulk_addr: "tcp://node-1-bulk".into(),
        http_addr: None,
        seeds: Vec::new(),
        data_dir: "/tmp/dal-node-test".into(),
        timeouts: Timeouts::default(),
    }
}

fn entry(node_id: NodeId, incarnation: u64) -> NodeDirectoryEntry {
    NodeDirectoryEntry {
        node_id,
        control_addr: format!("tcp://node-{node_id}-control"),
        bulk_addr: format!("tcp://node-{node_id}-bulk"),
        state: NodeState::Active,
        incarnation,
    }
}

fn placed(voters: &[NodeId], plan: Option<(u64, &[NodeId], bool)>) -> Placement {
    Placement {
        voters: voters.to_vec(),
        voters_log_id: LogId::new(1, 1),
        move_plan: plan.map(|(plan_id, target, aborting)| MovePlan {
            plan_id,
            target_voters: target.to_vec(),
            aborting,
        }),
    }
}

fn config_error(text: &str) -> Error {
    Error::Config(text.to_string())
}

fn raft_error(text: &str) -> Error {
    Error::Raft(text.to_string())
}

#[test]
fn allows_config_for_a_dynamically_joined_node() {
    let mut cfg = config(9);
    cfg.control_addr = "tcp://node-9-control".into();
    cfg.bulk_addr = "tcp://node-9-bulk".into();
    assert!(validate_node_descriptor(&cfg, &descriptor()).is_ok());
}

#[test]
fn defers_descriptor_address_change_to_live_registration_check() {
    let mut cfg = config(1);
    cfg.control_addr = "tcp://wrong-control".into();
    assert!(validate_node_descriptor(&cfg, &descriptor()).is_ok());
}

#[test]
fn rejects_an_incompatible_protocol_descriptor() {
    let mut desc = descriptor();
    desc.config.protocol_version = PROTOCOL_VERSION - 1;
    let err = validate_node_descriptor(&config(1), &desc).unwrap_err();
    assert!(err.to_text().contains("protocol version"));
}

#[test]
fn rejects_incomplete_or_malformed_placement_descriptors() {
    let mut desc = descriptor();
    desc.data_placements.clear();
    assert!(validate_node_descriptor(&config(1), &desc).is_err());

    let mut desc = descriptor();
    desc.data_placements[0].1 = vec![1, 1, 3];
    assert!(validate_node_descriptor(&config(1), &desc).is_err());

    let mut desc = descriptor();
    desc.directory[1].control_addr = desc.directory[0].control_addr.clone();
    assert!(validate_node_descriptor(&config(1), &desc).is_err());
}

#[test]
fn each_descriptor_defect_has_its_text() {
    let check = |desc: &BootstrapDescriptor| validate_node_descriptor(&config(1), desc);
    let mut desc = descriptor();
    desc.cluster_id = 8;
    assert_eq!(
        check(&desc),
        Err(config_error("node config and bootstrap descriptor disagree on cluster_id"))
    );
    let mut desc = descriptor();
    desc.config.protocol_version = 0;
    assert_eq!(
        check(&desc),
        Err(config_error(
            "bootstrap descriptor protocol version 0 is incompatible with runtime version 1"
        ))
    );
    let mut desc = descriptor();
    desc.config.r = 1;
    assert_eq!(check(&desc), Err(config_error("R must be >= 3")));
    let mut desc = descriptor();
    desc.directory = (1..=1025)
        .map(|node_id| DirEntry {
            node_id,
            control_addr: format!("c{node_id}"),
            bulk_addr: format!("b{node_id}"),
        })
        .collect();
    assert_eq!(
        check(&desc),
        Err(config_error("bootstrap descriptor has more than 1024 nodes"))
    );
    let mut desc = descriptor();
    desc.meta_voters = vec![1, 2, 9];
    assert_eq!(
        check(&desc),
        Err(config_error("every meta voter must be a bootstrap node"))
    );
    let mut desc = descriptor();
    desc.directory[0].bulk_addr = "x".repeat(513);
    assert_eq!(
        check(&desc),
        Err(config_error("bootstrap descriptor endpoints must be 1..=512 bytes"))
    );
    let mut desc = descriptor();
    desc.directory[2].bulk_addr = desc.directory[0].control_addr.clone();
    assert_eq!(
        check(&desc),
        Err(config_error("bootstrap descriptor endpoints must be globally unique"))
    );
    let mut desc = descriptor();
    desc.data_placements.push((0, vec![1, 2, 3]));
    assert_eq!(
        check(&desc),
        Err(config_error("bootstrap descriptor must contain exactly 1 data placements"))
    );
    let mut desc = descriptor();
    desc.data_placements[0].0 = 1;
    assert_eq!(
        check(&desc),
        Err(config_error("bootstrap descriptor has an invalid or duplicate partition"))
    );
    let mut desc = descriptor();
    desc.data_placements[0].1 = vec![1, 2, 4];
    assert_eq!(
        check(&desc),
        Err(config_error("partition 0 must have exactly R distinct directory voters"))
    );
}

#[test]
fn genesis_nodes_register_without_asking() {
    let mut storage = Storage::new(None);
    assert_eq!(
        begin_registration(&config(1), &descriptor(), &mut storage),
        RegistrationStep::Genesis
    );
    let binding = storage.binding.as_ref().unwrap();
    assert_eq!(binding.directory_incarnation, 1);
    assert_eq!(binding.node_id, 1);
    // From now on the process restarts under its binding.
    assert_eq!(
        begin_registration(&config(1), &descriptor(), &mut storage),
        RegistrationStep::Confirm
    );
    let mut moved = config(1);
    moved.bulk_addr = "tcp://elsewhere".into();
    assert_eq!(
        begin_registration(&moved, &descriptor(), &mut storage),
        RegistrationStep::Require
    );
}

#[test]
fn joined_nodes_need_the_live_directory() {
    let mut storage = Storage::new(None);
    let mut cfg = config(9);
    cfg.control_addr = "tcp://node-9-control".into();
    cfg.bulk_addr = "tcp://node-9-bulk".into();
    assert_eq!(
        resolve_registration_binding(&cfg, &descriptor(), &mut storage, Err(raft_error("down"))),
        Err(raft_error("down"))
    );
    assert_eq!(
        resolve_registration_binding(&cfg, &descriptor(), &mut storage, Ok(vec![entry(1, 1)])),
        Err(config_error(
            "node 9 is not present in the authoritative directory; run dal join first"
        ))
    );
    let binding =
        resolve_registration_binding(&cfg, &descriptor(), &mut storage, Ok(vec![entry(9, 4)]))
            .unwrap();
    assert_eq!(binding.directory_incarnation, 4);
    assert_eq!(storage.binding, Some(binding));
}

#[test]
fn restarts_keep_their_binding_while_meta_is_away() {
    let mut storage = Storage::new(None);
    let cfg = config(1);
    resolve_registration_binding(&cfg, &descriptor(), &mut storage, Err(raft_error("none")))
        .unwrap();
    let kept =
        resolve_registration_binding(&cfg, &descriptor(), &mut storage, Err(raft_error("none")))
            .unwrap();
    assert_eq!(kept.directory_incarnation, 1);
    // Not applied yet: genesis is still under way.
    let kept =
        resolve_registration_binding(&cfg, &descriptor(), &mut storage, Ok(vec![entry(2, 1)]))
            .unwrap();
    assert_eq!(kept.directory_incarnation, 1);
    // A rejoin at a higher incarnation takes effect.
    let raised =
        resolve_registration_binding(&cfg, &descriptor(), &mut storage, Ok(vec![entry(1, 3)]))
            .unwrap();
    assert_eq!(raised.directory_incarnation, 3);
    // After that the node must be listed.
    assert!(
        resolve_registration_binding(&cfg, &descriptor(), &mut storage, Ok(vec![entry(2, 1)]))
            .is_err()
    );
}

#[test]
fn registration_endpoints_must_match() {
    let mut storage = Storage::new(None);
    let mut cfg = config(1);
    cfg.bulk_addr = "tcp://other".into();
    assert_eq!(
        bind_authoritative_registration(&cfg, &mut storage, &vec![entry(1, 1)]),
        Err(config_error(
            "node 1 config endpoints do not match its authoritative registration"
        ))
    );
    assert_eq!(storage.binding, None);
}

#[test]
fn registration_asks_seeds_then_the_descriptor() {
    let mut cfg = config(1);
    cfg.seeds = vec!["tcp://seed".into()];
    assert_eq!(
        registration_seeds(&cfg, &descriptor()),
        vec![
            "tcp://seed".to_string(),
            "tcp://node-1-control".to_string(),
            "tcp://node-2-control".to_string(),
            "tcp://node-3-control".to_string(),
        ]
    );
}

#[test]
fn groups_that_were_given_up_stay_gone() {
    let mut storage = Storage::new(None);
    storage.groups = vec![GroupId::Meta, GroupId::Data(0)];
    let plan = plan_start(&storage, 1, &descriptor());
    assert!(plan.meta_voter);
    assert_eq!(plan.hosted, vec![(0, vec![1, 2, 3])]);
    assert_eq!(plan.resumed, vec![0]);
    assert!(!plan.resume_meta);

    // A node that joined later resumes what it holds.
    let plan = plan_start(&storage, 9, &descriptor());
    assert!(!plan.meta_voter);
    assert!(plan.hosted.is_empty());
    assert_eq!(plan.resumed, vec![0]);
    assert!(plan.resume_meta);

    storage.serving = vec![
        (GroupId::Meta, ServingState::NonServing),
        (GroupId::Data(0), ServingState::NonServing),
    ];
    for node in [1, 9] {
        let plan = plan_start(&storage, node, &descriptor());
        assert!(!plan.meta_voter);
        assert!(plan.hosted.is_empty());
        assert!(plan.resumed.is_empty());
        assert!(!plan.resume_meta);
    }
}

#[test]
fn start_records_the_markers_of_its_groups() {
    let mut storage = Storage::new(None);
    let plan = plan_start(&storage, 1, &descriptor());
    record_start_markers(&mut storage, 7, &descriptor(), &plan).unwrap();
    assert_eq!(
        storage.bootstrap_group(GroupId::Meta),
        Some(&BootstrapGroup { cluster_id: 7, group: GroupId::Meta, members: vec![1, 2, 3] })
    );
    assert!(storage.bootstrap_group(GroupId::Data(0)).is_some());
    // Again: nothing changes.
    record_start_markers(&mut storage, 7, &descriptor(), &plan).unwrap();
    assert_eq!(storage.bootstrap.len(), 2);
    // A conflicting marker ends the start.
    assert_eq!(
        record_start_markers(&mut storage, 8, &descriptor(), &plan),
        Err(config_error("conflicting bootstrap record for Meta"))
    );
}

#[test]
fn groups_start_only_under_their_records() {
    let joined = || {
        let mut cfg = config(9);
        cfg.control_addr = "tcp://node-9-control".into();
        cfg.bulk_addr = "tcp://node-9-bulk".into();
        cfg
    };
    let mut own = entry(9, 4);
    own.control_addr = joined().control_addr;
    own.bulk_addr = joined().bulk_addr;
    let directory = || Ok(vec![own.clone()]);
    let refusal = |group| {
        let text = format!("group {group} has neither a bootstrap marker nor a learner admission");
        Some(raft_error(&text))
    };
    let admitted = |group| LearnerAdmission { cluster_id: 7, group, plan_id: 3 };

    // State on disk that no record accounts for ends the start.
    let mut storage = Storage::new(None);
    storage.groups = vec![GroupId::Meta, GroupId::Data(0)];
    let begun = start(&joined(), &descriptor(), &mut storage, directory());
    assert_eq!(begun.err(), refusal("data-0"));
    storage.add_learner_admission(admitted(GroupId::Data(0)));
    let begun = start(&joined(), &descriptor(), &mut storage, directory());
    assert_eq!(begun.err(), refusal("meta"));
    storage.add_learner_admission(admitted(GroupId::Meta));
    let begun = start(&joined(), &descriptor(), &mut storage, directory()).ok().unwrap();
    assert_eq!((begun.plan.resumed, begun.plan.resume_meta), (vec![0], true));
    // What was given up is not started, whatever is left of it.
    storage.reclaim_group(GroupId::Data(0));
    let begun = start(&joined(), &descriptor(), &mut storage, directory()).ok().unwrap();
    assert!(begun.plan.resumed.is_empty());
    // An initial voter marks its groups itself.
    let mut storage = Storage::new(None);
    storage.groups = vec![GroupId::Data(0)];
    let begun = start(&config(1), &descriptor(), &mut storage, Err(raft_error("not asked")));
    assert_eq!(begun.ok().unwrap().plan.resumed, vec![0]);
}

#[test]
fn a_node_starts_with_its_registration_and_groups() {
    let mut storage = Storage::new(None);
    let started =
        start(&config(1), &descriptor(), &mut storage, Err(raft_error("not asked"))).unwrap();
    assert_eq!(started.registration.directory_incarnation, 1);
    assert!(started.plan.meta_voter);
    assert_eq!(storage.bootstrap.len(), 2);

    let mut broken = descriptor();
    broken.data_placements.clear();
    let mut untouched = Storage::new(None);
    assert!(start(&config(1), &broken, &mut untouched, Err(raft_error("x"))).is_err());
    assert_eq!(untouched.binding, None);
    assert!(untouched.bootstrap.is_empty());
}

#[test]
fn heartbeats_come_three_to_a_suspicion() {
    assert_eq!(heartbeat_interval_nanos(Duration::from_millis(3000)), 1_000_000_000);
    assert_eq!(heartbeat_interval_nanos(Duration::from_millis(1000)), 333_333_333);
    assert_eq!(heartbeat_interval_nanos(Duration::from_millis(100)), 50_000_000);
}

#[test]
fn heartbeats_count_up() {
    let binding = RegistrationBinding {
        cluster_id: 7,
        node_id: 4,
        control_addr: "c".into(),
        bulk_addr: "b".into(),
        directory_incarnation: 6,
    };
    let mut emitter = HeartbeatEmitter::new(&binding, 11);
    let first = emitter.beat();
    assert_eq!((first.node_id, first.incarnation, first.process_incarnation, first.seq), (4, 6, 11, 1));
    assert_eq!(emitter.beat().seq, 2);
    emitter.seq = u64::MAX;
    assert_eq!(emitter.beat().seq, u64::MAX);
    assert_eq!(emitter.beat().seq, 0);
}

#[test]
fn a_fenced_process_does_nothing_more() {
    let mut gate = ProcessIdentityGate::default();
    assert_eq!(require_identity_open(&gate), Ok(()));
    gate.fence();
    assert!(!gate.is_open());
    assert_eq!(
        require_identity_open(&gate),
        Err(raft_error("local process identity is fenced"))
    );
}

#[test]
fn only_the_designated_voter_initializes() {
    let voters = vec![5, 2, 9];
    assert!(should_initialize(2, &voters, false));
    assert!(!should_initialize(5, &voters, false));
    assert!(!should_initialize(2, &voters, true));
    assert!(!should_initialize(2, &Vec::new(), false));
}

#[test]
fn genesis_is_seeded_when_every_partition_is_placed() {
    assert!(meta_seeded_locally(&vec![true, true]));
    assert!(!meta_seeded_locally(&vec![true, false]));
    assert!(meta_seeded_locally(&Vec::new()));
    let voters = vec![1, 2, 3];
    assert_eq!(placement_seeded(4, &voters, None), Ok(false));
    assert_eq!(placement_seeded(4, &voters, Some(&placed(&[1, 2, 3], None))), Ok(true));
    assert_eq!(placement_seeded(4, &voters, Some(&placed(&[1, 2, 4], None))), Ok(false));
    assert_eq!(
        placement_seeded(4, &voters, Some(&placed(&[1, 2, 3], Some((1, &[1, 2, 4], false))))),
        Err(raft_error("data group 4 has a move before genesis initialization"))
    );
}

#[test]
fn peers_tell_whether_a_partition_is_seeded() {
    let reply = Envelope::new(7, MsgType::BootstrapStatus, GroupId::Meta, 0, Vec::new());
    let moving = placed(&[1, 2, 3], Some((1, &[1, 2, 4], false)));
    assert_eq!(peer_seeded(7, 0, &reply, Some(true), None), Ok(true));
    assert_eq!(peer_seeded(7, 0, &reply, Some(false), None), Ok(false));
    assert_eq!(peer_seeded(7, 0, &reply, None, Some(&placed(&[1], None))), Ok(false));
    assert_eq!(
        peer_seeded(7, 0, &reply, Some(false), Some(&moving)),
        Err(raft_error("data group 0 has a move before genesis initialization"))
    );
    assert_eq!(peer_seeded(8, 0, &reply, Some(true), Some(&moving)), Ok(false));
    let other = Envelope::new(7, MsgType::MetaQuery, GroupId::Meta, 0, Vec::new());
    assert_eq!(peer_seeded(7, 0, &other, Some(true), None), Ok(false));
}

#[test]
fn bootstrap_waits_for_genesis() {
    let open = ProcessIdentityGate::default();
    let mut fenced = ProcessIdentityGate::default();
    fenced.fence();
    let closed = || raft_error("local process identity is fenced");
    let partly = vec![true, false];
    assert_eq!(meta_genesis_step(&fenced, &vec![true, true], false), Ok(GenesisStep::Done));
    assert_eq!(meta_genesis_step(&open, &partly, true), Ok(GenesisStep::Seed));
    assert_eq!(meta_genesis_step(&open, &partly, false), Ok(GenesisStep::Wait));
    assert_eq!(meta_genesis_step(&fenced, &partly, true), Err(closed()));
    assert_eq!(meta_genesis_pause(3, false), Ok(()));
    assert_eq!(meta_genesis_pause(3, true), Err(meta_seed_timeout(3)));

    let step = |gate, seeded, expired| data_genesis_step(gate, 3, 8, seeded, expired);
    assert_eq!(step(&fenced, Ok(true), true), Ok(GenesisStep::Done));
    assert_eq!(step(&open, Ok(false), false), Ok(GenesisStep::Wait));
    assert_eq!(step(&open, Ok(false), true), Err(placement_seed_timeout(3, 8)));
    assert_eq!(step(&fenced, Ok(false), true), Err(closed()));
    assert_eq!(step(&open, Err(raft_error("moved")), false), Err(raft_error("moved")));
}

#[test]
fn placement_answers_are_this_clusters() {
    let placement = Placement {
        voters: vec![1, 2, 3],
        voters_log_id: LogId::new(1, 1),
        move_plan: None,
    };
    let reply = |cluster, msg_type| Envelope::new(cluster, msg_type, GroupId::Meta, 0, Vec::new());
    let body = Some(Some(placement.clone()));
    let query = MsgType::PlacementQuery;
    assert_eq!(placement_answer(7, &reply(7, query), body.clone()), Some(placement));
    assert_eq!(placement_answer(7, &reply(8, query), body.clone()), None);
    assert_eq!(placement_answer(7, &reply(7, MsgType::MetaQuery), body), None);
    assert_eq!(placement_answer(7, &reply(7, query), Some(None)), None);
    assert_eq!(placement_answer(7, &reply(7, query), None), None);
}

#[test]
fn directories_belong_to_one_node() {
    let own = Identity { cluster_id: 7, node_id: 3 };
    assert_eq!(check_identity(None, own), Ok(true));
    assert_eq!(check_identity(Some(own), own), Ok(false));
    let other = Identity { cluster_id: 0xab, node_id: 4 };
    assert_eq!(
        check_identity(Some(other), own).unwrap_err().to_text(),
        "identity mismatch: data dir holds cluster 0xab node 4, config expects cluster 0x7 node 3"
    );
}

#[test]
fn reclaimed_groups_need_a_new_admission() {
    let mut storage = Storage::new(None);
    let group = GroupId::Data(4);
    let admission = |plan_id| LearnerAdmission { cluster_id: 7, group, plan_id };
    storage.record_verified_learner_admission(admission(1));
    storage.reclaim_group(GroupId::Data(9));
    storage.reclaim_group(group);
    assert_eq!(storage.serving_state(group), Some(ServingState::NonServing));
    assert_eq!(storage.learner_admission(group), None);
    storage.record_verified_learner_admission(admission(2));
    storage.record_verified_learner_admission(admission(3));
    assert_eq!(storage.serving_state(group), None);
    assert_eq!(storage.learner_admission(group), Some(admission(3)));
    assert_eq!(storage.serving_state(GroupId::Data(9)), Some(ServingState::NonServing));
    assert_eq!(storage.admissions.len(), 1);
}

#[test]
fn bootstrap_timeouts_name_the_node() {
    assert_eq!(
        meta_seed_timeout(3),
        raft_error("node 3 timed out waiting for meta genesis to seed")
    );
    assert_eq!(
        placement_seed_timeout(3, 8),
        raft_error("node 3 timed out waiting for placement 8 to seed")
    );
}

#[test]
fn a_plan_admits_the_node_it_adds() {
    let group = GroupId::Data(2);
    let plan = placed(&[1, 2, 3], Some((9, &[1, 2, 4], false)));
    assert_eq!(
        admit_learner(4, 7, group, 9, Some(&plan)),
        Ok(LearnerAdmission { cluster_id: 7, group, plan_id: 9 })
    );
    assert_eq!(
        verify_learner_plan(5, group, 9, Some(&plan)),
        Err(raft_error("learner admission plan 9 for Data(2) does not add node 5"))
    );
    assert_eq!(
        verify_learner_plan(4, group, 8, Some(&plan)),
        Err(raft_error("learner admission plan mismatch for Data(2): expected 9, got 8"))
    );
    let aborting = placed(&[1, 2, 3], Some((9, &[1, 2, 4], true)));
    assert_eq!(
        verify_learner_plan(4, group, 9, Some(&aborting)),
        Err(raft_error("learner admission plan 9 for Data(2) is aborting"))
    );
    assert_eq!(
        verify_learner_plan(4, group, 9, Some(&placed(&[1, 2, 3], None))),
        Err(raft_error("learner admission for Data(2) has no live plan"))
    );
    assert_eq!(
        verify_learner_plan(4, group, 9, None),
        Err(raft_error("no meta leader confirmed placement for Data(2)"))
    );
    assert_eq!(
        admit_learner(4, 7, GroupId::Meta, 9, Some(&plan)),
        Err(raft_error("cannot admit a learner for Meta"))
    );
    assert_eq!(
        admit_meta_learner(4, 7, 9, Some(&plan)),
        Ok(LearnerAdmission { cluster_id: 7, group: GroupId::Meta, plan_id: 9 })
    );
    assert!(admit_meta_learner(3, 7, 9, Some(&plan)).is_err());
}

#[test]
fn groups_are_given_up_only_when_confirmed() {
    let group = GroupId::Data(2);
    assert_eq!(reclaim_group(false, 3, group, None), Ok(false));
    assert_eq!(
        reclaim_group(true, 3, group, None),
        Err(raft_error("no meta leader confirmed placement for Data(2)"))
    );
    assert_eq!(reclaim_group(true, 3, group, Some(&placed(&[1, 2, 4], None))), Ok(true));
    assert_eq!(reclaim_group(true, 4, group, Some(&placed(&[1, 2, 4], None))), Ok(false));
    assert_eq!(
        reclaim_group(true, 3, group, Some(&placed(&[1, 2, 4], Some((1, &[1, 2, 5], false))))),
        Ok(false)
    );
}

#[test]
fn detected_failures_become_commands() {
    let directory = vec![entry(1, 3), entry(2, 5)];
    assert_eq!(
        directory_states(&directory),
        vec![(1, NodeState::Active, 3), (2, NodeState::Active, 5)]
    );
    assert_eq!(
        failure_detector(&directory, &vec![(2, NodeState::Down), (8, NodeState::Suspect)]),
        vec![
            MetaCommand::SetNodeState { node_id: 2, state: NodeState::Down, incarnation: 5 },
            MetaCommand::SetNodeState { node_id: 8, state: NodeState::Suspect, incarnation: 0 },
        ]
    );
}

#[test]
fn replicas_ask_their_leader_for_a_fence() {
    assert_eq!(fence_source(false, false, Some(3)), Some(3));
    assert_eq!(fence_source(false, false, None), None);
    assert_eq!(fence_source(true, false, Some(3)), None);
    assert_eq!(fence_source(false, true, Some(3)), None);
    let reply = Envelope::new(7, MsgType::DataRecoveryFence, GroupId::Data(1), 0, Vec::new());
    assert!(fence_answers(7, GroupId::Data(1), &reply));
    assert!(!fence_answers(8, GroupId::Data(1), &reply));
    assert!(!fence_answers(7, GroupId::Data(2), &reply));
}

#[test]
fn shutdown_reports_the_first_error() {
    assert_eq!(shutdown_outcome(vec![Ok(()), Ok(())]), Ok(()));
    assert_eq!(
        shutdown_outcome(vec![Ok(()), Err(raft_error("a")), Err(raft_error("b"))]),
        Err(raft_error("a"))
    );
}
