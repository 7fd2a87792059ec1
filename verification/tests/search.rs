//! Searches over shards, their sessions, and the catalog.
use dal::api::ops::{Redirect, RoutingInfo, SearchCatalogReply, SearchShardReply};
use dal::api::route::{
    active_generation, catalog_unanswered, routing_unanswered, search_index, shard_step, ShardStep,
};
use dal::error::Error;
use dal::meta::bootstrap::{BootstrapDescriptor, DirEntry};
use dal::meta::node::MetaRead;
use dal::meta::state_machine::MetaApplyResult;
use dal::runtime::live::{
    catalog_answers, catalog_step, index_step, pick_catalog, pick_record, CatalogStep, LiveRouting,
    RoutingStep,
};
use dal::runtime::search::{
    drive_activation, drop_unlisted, not_prepared, not_served, ready_taken,
    reconcile_partition_index, report_ready, search_reply, shard_answers, shard_outcome,
    submit_ready, IndexPlan, SessionHost, Sessions, ShardAnswer, ShardExecuteReply, ShardReply,
    ShardWalk,
};
use dal::search::{
    SearchIndexDefinition, SearchIndexGeneration, SearchIndexReady, SearchIndexRecord,
};
use dal::transport::{Envelope, MsgType};
use dal::types::{
    ClusterConfig, GroupId, HashSpec, LogId, MetaCommand, MovePlan, NodeDirectoryEntry, NodeState,
    Placement, PROTOCOL_VERSION,
};
use dal::wire::{SearchIndexStatusReply, SubmitReply};

fn placed(voters: &[u64]) -> Placement {
    Placement {
        voters: voters.to_vec(),
        voters_log_id: LogId::new(1, 4),
        move_plan: None,
    }
}

fn routing(voters: &[u64]) -> RoutingInfo {
    RoutingInfo {
        cluster_id: 7,
        p: 1,
        hash_spec: HashSpec::CANONICAL,
        directory: Vec::new(),
        placements: vec![(0, placed(voters))],
    }
}

fn generation(id: u64) -> SearchIndexGeneration {
    SearchIndexGeneration {
        id,
        engine_revision: 1,
        definition: SearchIndexDefinition { source: vec![], hash: [1; 32], defect: None },
        definition_hash: [1; 32],
    }
}

fn record(name: &str, active: Option<u64>, building: Option<u64>) -> SearchIndexRecord {
    SearchIndexRecord {
        name: name.to_string(),
        active: active.map(generation),
        building: building.map(generation),
        retiring: vec![8, 9],
    }
}

#[test]
fn hints_lead_to_the_leader() {
    let r = routing(&[1, 2, 3]);
    let mut walk = ShardWalk::new(1);
    assert!(walk.begin_round());
    walk.on_local(Some(1));
    walk.ask(Some(&r), 0);
    // This node asks itself directly, never over the network.
    assert_eq!(walk.next(), Some(2));
    walk.on_not_leader(2, None);
    assert_eq!(walk.next(), Some(3));
    walk.on_not_leader(3, Some(2));
    assert_eq!(walk.next(), None);
    assert!(walk.begin_round());
    walk.ask(Some(&r), 0);
    assert_eq!(walk.next(), Some(2));
    assert_eq!(walk.next(), Some(3));
    assert_eq!(walk.next(), None);
    // Without another hint there is no further round.
    assert!(!walk.begin_round());
}

#[test]
fn shard_replies_settle_or_point_on() {
    let r = routing(&[1, 2, 3]);
    let mut walk = ShardWalk::new(1);
    assert!(walk.begin_round());
    assert_eq!(walk.on_local_reply(ShardReply::Served(9)), Some(Ok(9)));
    assert_eq!(
        walk.on_local_reply(ShardReply::<u8>::Error("bad".into())),
        Some(Err(Error::Search("bad".to_string())))
    );
    let away = || ShardReply::<u8>::NotLeader { leader: Some(3) };
    assert_eq!(walk.on_local_reply(away()), None);
    walk.ask(Some(&r), 0);
    assert_eq!(walk.next(), Some(3));
    assert_eq!(walk.on_shard_reply::<u8>(3, None), None);
    assert_eq!(walk.on_shard_reply(3, Some(away())), None);
    assert_eq!(walk.next(), Some(2));
    assert_eq!(walk.on_shard_reply(2, Some(away())), None);
    assert_eq!(walk.next(), None);
    assert!(walk.begin_round());
    let redirect = Redirect { cluster_id: 7, leader: Some(2), candidates: vec![] };
    let moved = search_reply(SearchShardReply::<u8>::Redirect(redirect));
    assert_eq!(walk.on_shard_reply(3, Some(moved)), None);
    assert!(walk.begin_round());
    walk.ask(Some(&r), 0);
    assert_eq!(walk.next(), Some(2));
    let refused = search_reply(SearchShardReply::<u8>::Refused("no".into()));
    assert_eq!(
        walk.on_shard_reply(2, Some(refused)),
        Some(Err(Error::Search("no".to_string())))
    );
    let served = search_reply(SearchShardReply::Result(5u8));
    assert_eq!(walk.on_shard_reply(2, Some(served)), Some(Ok(5)));
}

#[test]
fn rounds_are_bounded() {
    let mut walk = ShardWalk::new(1);
    let mut rounds = 0;
    while walk.begin_round() {
        rounds += 1;
        walk.on_not_leader(2, Some(3));
    }
    assert_eq!(rounds, 3);
    let mut walk = ShardWalk::new(1);
    assert!(walk.begin_round());
    walk.on_local(Some(4));
    walk.ask(None, 0);
    assert_eq!(walk.next(), Some(4));
    assert_eq!(
        not_prepared(5),
        Error::Search("no replica prepared a search on partition 5".to_string())
    );
    assert_eq!(
        not_served(5),
        Error::Search("no replica served a search on partition 5".to_string())
    );
}

#[test]
fn both_phases_use_one_replica() {
    let mut sessions = Sessions::new();
    sessions.remember(0, 10, SessionHost::Remote(2));
    sessions.remember(1, 10, SessionHost::Local);
    assert_eq!(sessions.host(0, 10), Some(SessionHost::Remote(2)));
    assert_eq!(sessions.execute_shard(1, 10), Ok(SessionHost::Local));
    assert_eq!(sessions.host(0, 11), None);
    assert!(matches!(sessions.execute_shard(0, 11), Err(Error::Search(_))));
    let reply = Envelope::new(7, MsgType::SearchExecute, GroupId::Data(0), 1, Vec::new());
    assert!(shard_answers(7, MsgType::SearchExecute, &reply));
    assert!(!shard_answers(7, MsgType::SearchPrepare, &reply));
    assert!(!shard_answers(8, MsgType::SearchExecute, &reply));
    assert_eq!(
        shard_outcome(0, ShardAnswer::Reply(ShardExecuteReply::Result(5))),
        Ok(5)
    );
    for answer in [
        ShardAnswer::Silent,
        ShardAnswer::Unreadable("eof".to_string()),
        ShardAnswer::Reply(ShardExecuteReply::UnknownSession),
        ShardAnswer::Reply(ShardExecuteReply::Error("x".to_string())),
    ] {
        assert!(matches!(shard_outcome::<u8>(0, answer), Err(Error::Search(_))));
    }
}

#[test]
fn partitions_follow_the_catalog() {
    let r = record("a", Some(3), Some(4));
    assert_eq!(
        reconcile_partition_index(&r, false, false),
        IndexPlan { install: Some(3), activate: Some(3), build: Some(4), report: Some(4) }
    );
    assert_eq!(
        reconcile_partition_index(&r, true, true),
        IndexPlan { install: None, activate: Some(3), build: None, report: Some(4) }
    );
    assert_eq!(
        reconcile_partition_index(&record("a", None, None), false, false),
        IndexPlan { install: None, activate: None, build: None, report: None }
    );
    let catalog = vec![r];
    let loaded = |list: &[(u16, &str, u64)]| -> Vec<(u16, String, u64)> {
        list.iter().map(|g| (g.0, g.1.to_string(), g.2)).collect()
    };
    assert_eq!(
        drop_unlisted(
            &catalog,
            &vec![0, 1],
            &loaded(&[(0, "a", 3), (1, "a", 4), (0, "a", 2), (1, "b", 3), (2, "a", 1)])
        ),
        loaded(&[(0, "a", 2), (1, "b", 3)])
    );
    assert_eq!(
        drive_activation(true, &catalog),
        vec![
            MetaCommand::ActivateSearchIndexGeneration { name: "a".into(), generation: 4 },
            MetaCommand::FinalizeSearchIndexDrop { name: "a".into(), generation: 8 },
            MetaCommand::FinalizeSearchIndexDrop { name: "a".into(), generation: 9 },
        ]
    );
    assert!(drive_activation(false, &catalog).is_empty());
}

#[test]
fn readiness_is_reported_by_settled_voters() {
    let p = placed(&[1, 2]);
    assert_eq!(report_ready(Some(&p), 2), Some(LogId::new(1, 4)));
    assert_eq!(report_ready(Some(&p), 3), None);
    assert_eq!(report_ready(None, 2), None);
    let mut moving = placed(&[1, 2]);
    moving.move_plan = Some(MovePlan { plan_id: 1, target_voters: vec![1, 3], aborting: false });
    assert_eq!(report_ready(Some(&moving), 2), None);
    let observation = SearchIndexReady {
        generation: 4,
        definition_hash: [1; 32],
        engine_revision: 1,
        group: GroupId::Data(0),
        projection_epoch: 1,
        voters_log_id: LogId::new(1, 4),
        node_id: 2,
        source_log_id: LogId::new(1, 9),
    };
    let name = "a".to_string();
    assert_eq!(submit_ready(false, &name, observation), None);
    assert_eq!(
        submit_ready(true, &name, observation),
        Some(MetaCommand::ReportSearchIndexReady { name, observation })
    );
    let outcome = SubmitReply::Outcome(MetaApplyResult::Applied);
    assert!(ready_taken(Some(&SearchIndexStatusReply::Submitted(outcome))));
    let refusal = SubmitReply::Error("x".into());
    assert!(!ready_taken(Some(&SearchIndexStatusReply::Submitted(refusal))));
    assert!(!ready_taken(None));
}

#[test]
fn routing_comes_from_complete_local_state() {
    let desc = BootstrapDescriptor {
        cluster_id: 7,
        config: ClusterConfig {
            cluster_id: 7,
            protocol_version: PROTOCOL_VERSION,
            p: 2,
            r: 3,
            hash_spec: HashSpec::CANONICAL,
        },
        meta_voters: vec![1, 2, 3],
        directory: vec![DirEntry {
            node_id: 1,
            control_addr: "c1".into(),
            bulk_addr: "b1".into(),
        }],
        data_placements: vec![(0, vec![1, 2, 3]), (1, vec![1, 2, 3])],
    };
    let live = LiveRouting::from_descriptor(&desc, "c1".to_string());
    assert_eq!(live.fallback.directory[0].incarnation, 0);
    assert_eq!(live.fallback.candidates(1), vec![1, 2, 3]);
    let directory = vec![NodeDirectoryEntry {
        node_id: 2,
        control_addr: "c2".into(),
        bulk_addr: "b2".into(),
        state: NodeState::Active,
        incarnation: 3,
    }];
    let full = vec![Some(placed(&[1, 2, 4])), Some(placed(&[2, 3, 4]))];
    let info = live.local(Some(directory.clone()), full.clone()).unwrap();
    assert_eq!(info.directory, directory);
    assert_eq!(info.candidates(0), vec![1, 2, 4]);
    assert!(live.local(None, full.clone()).is_none());
    assert!(live.local(Some(Vec::new()), full).is_none());
    let partial = vec![Some(placed(&[1, 2, 4])), None];
    assert!(live.local(Some(directory), partial).is_none());
    assert!(matches!(live.routing(Some(info), true), RoutingStep::Answer(Some(_))));
    assert!(matches!(live.routing(None, true), RoutingStep::Answer(None)));
    assert!(matches!(live.routing(None, false), RoutingStep::AskPeers));
    assert!(!live.asks(&"c1".to_string()));
    assert!(live.asks(&"c2".to_string()));
    let reply = Envelope::new(7, MsgType::MetaQuery, GroupId::Meta, 1, Vec::new());
    assert!(live.usable(&reply, Some(&routing(&[1]))));
    let mut foreign = routing(&[1]);
    foreign.cluster_id = 8;
    assert!(!live.usable(&reply, Some(&foreign)));
    assert!(!live.usable(&reply, None));
}

fn failure<T>(step: CatalogStep<T>) -> String {
    match step {
        CatalogStep::Fail(text) => text,
        _ => panic!("expected a failure"),
    }
}

#[test]
fn the_catalog_is_read_from_the_leader() {
    let lost = || Some(Err(Error::Raft("lost".to_string())));
    let follower = || Some(Ok(MetaRead::NotLeader { leader: Some(2) }));
    assert!(matches!(
        index_step(Some(Ok(MetaRead::Value(5))), true),
        CatalogStep::Answer(5)
    ));
    assert_eq!(failure::<u8>(index_step(lost(), true)), "raft: lost");
    assert_eq!(
        failure::<u8>(index_step(follower(), true)),
        "local node is not the current meta leader"
    );
    assert!(matches!(index_step::<u8>(lost(), false), CatalogStep::AskPeers));
    assert_eq!(
        failure::<u8>(catalog_step(lost(), true)),
        "local node is not the current meta leader"
    );
    assert!(matches!(catalog_step::<u8>(None, false), CatalogStep::AskPeers));
    let reply = Envelope::new(7, MsgType::SearchCatalogQuery, GroupId::Meta, 1, Vec::new());
    assert!(catalog_answers(7, &reply));
    assert!(!catalog_answers(8, &reply));

    let a = record("a", Some(3), None);
    let replies = vec![
        SearchCatalogReply::Unavailable,
        SearchCatalogReply::Catalog(vec![a.clone()]),
        SearchCatalogReply::Record(Some(a.clone())),
        SearchCatalogReply::Record(None),
    ];
    assert_eq!(pick_record(&replies), Ok(Some(a.clone())));
    assert_eq!(pick_catalog(&replies), Ok(vec![a]));
    let none = vec![SearchCatalogReply::Unavailable];
    assert_eq!(
        pick_catalog(&none),
        Err("no meta leader answered the search catalog query".to_string())
    );
    assert!(pick_record(&none).is_err());
}

#[test]
fn a_client_looks_indexes_up() {
    let envelope = Envelope::new(7, MsgType::SearchCatalogQuery, GroupId::Meta, 1, Vec::new());
    let a = record("a", Some(3), None);
    assert_eq!(
        search_index(7, &envelope, Some(SearchCatalogReply::Record(Some(a.clone())))),
        Some(Ok(Some(a.clone())))
    );
    assert_eq!(
        search_index(7, &envelope, Some(SearchCatalogReply::Error("x".to_string()))),
        Some(Err(Error::Search("x".to_string())))
    );
    assert_eq!(search_index(7, &envelope, Some(SearchCatalogReply::Unavailable)), None);
    assert_eq!(search_index(7, &envelope, None), None);
    assert_eq!(search_index(8, &envelope, Some(SearchCatalogReply::Record(None))), None);
    assert_eq!(
        catalog_unanswered(),
        Error::Search("no seed answered the search catalog query".to_string())
    );
    assert_eq!(
        routing_unanswered(),
        Error::Io("no seed answered a routing query".to_string())
    );
    let name = "a".to_string();
    assert_eq!(active_generation(&name, Some(a)), Ok(generation(3)));
    assert_eq!(
        active_generation(&name, Some(record("a", None, Some(4)))),
        Err(Error::Search("index \"a\" has no active generation".to_string()))
    );
    assert_eq!(
        active_generation(&"q\"".to_string(), None),
        Err(Error::Search("index \"q\\\"\" does not exist".to_string()))
    );
}

#[test]
fn shards_answer_or_point_on() {
    let redirect = Redirect { cluster_id: 7, leader: Some(2), candidates: vec![2] };
    assert_eq!(shard_step(SearchShardReply::Result(5)), ShardStep::Done(Ok(5)));
    assert_eq!(
        shard_step::<u8>(SearchShardReply::Redirect(redirect.clone())),
        ShardStep::Redirect(redirect)
    );
    for reply in [
        SearchShardReply::<u8>::Refused("x".to_string()),
        SearchShardReply::Error("x".to_string()),
    ] {
        assert_eq!(
            shard_step(reply),
            ShardStep::Done(Err(Error::Search("x".to_string())))
        );
    }
}
