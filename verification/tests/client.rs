//! The client's routing, redirects and retries.
use dal::api::client::{finish_read, route_order, Client, RouteOrder};
use dal::api::ops::{ClientReply, Redirect, RoutingInfo, WriteReply};
use dal::api::route::{
    active_generation, foreign_redirect, foreign_reply, foreign_search, route_exhausted, search_exhausted, Answer,
    RouteWalk, WalkStep,
};
use dal::error::Error;
use dal::partition::state_machine::RejectReason;
use dal::search::{SearchIndexDefinition, SearchIndexGeneration, SearchIndexRecord};
use dal::transport::{Envelope, MsgType};
use dal::types::{
    Consistency, DataOp, GroupId, HashSpec, KeyPresence, LogId, NodeDirectoryEntry, NodeId,
    NodeState, Placement,
};

fn placement(voters: Vec<NodeId>, voters_log_id: LogId) -> Placement {
    Placement { voters, voters_log_id, move_plan: None }
}

/// A client whose cache already knows partition 0's voter set.
fn client_with_voters(voters: Vec<NodeId>) -> Client {
    let mut client = Client::new(1, 1);
    client.refresh_routing(RoutingInfo {
        cluster_id: 1,
        p: 1,
        hash_spec: HashSpec::CANONICAL,
        directory: Vec::new(),
        placements: vec![(0, placement(voters, LogId::new(1, 1)))],
    });
    client
}

fn directory_entry(node_id: NodeId, addr: &str) -> NodeDirectoryEntry {
    NodeDirectoryEntry {
        node_id,
        control_addr: addr.into(),
        bulk_addr: format!("{addr}-bulk"),
        state: NodeState::Active,
        incarnation: 1,
    }
}

fn routing(voters: Vec<NodeId>, voters_log_id: LogId) -> RoutingInfo {
    RoutingInfo {
        cluster_id: 1,
        p: 1,
        hash_spec: HashSpec::CANONICAL,
        directory: voters
            .iter()
            .map(|&id| directory_entry(id, &format!("node-{id}")))
            .collect(),
        placements: vec![(0, placement(voters, voters_log_id))],
    }
}

fn put(key: &[u8], value: &[u8]) -> DataOp {
    DataOp::Put { key: key.to_vec(), value: value.to_vec(), if_version: None }
}

#[test]
fn leader_first_prepends_hint_and_dedupes() {
    let mut client = client_with_voters(vec![1, 2, 3]);
    client.set_leader_hint(0, 3);
    // The hint leads; the remaining voters follow without duplicating it.
    assert_eq!(client.candidate_nodes(0, RouteOrder::LeaderFirst), vec![3, 1, 2]);
}

#[test]
fn spread_omits_hint_and_rotates_over_all_voters() {
    let mut client = client_with_voters(vec![1, 2, 3]);
    // A stale hint must not bias the spread order (min_version: None).
    client.set_leader_hint(0, 3);

    // Successive stale reads start at rotating positions, so load spreads
    // instead of always hitting the same replica.
    let orders: Vec<Vec<NodeId>> = (0..3)
        .map(|_| client.candidate_nodes(0, RouteOrder::Spread { prefer_hint: false }))
        .collect();
    assert_eq!(orders[0], vec![1, 2, 3]);
    assert_eq!(orders[1], vec![2, 3, 1]);
    assert_eq!(orders[2], vec![3, 1, 2]);

    // Each order is still a full permutation of the voter set, so every
    // candidate is tried within a round and a satisfiable read never starves.
    for order in &orders {
        let mut sorted = order.clone();
        sorted.sort();
        assert_eq!(sorted, vec![1, 2, 3]);
    }
}

#[test]
fn spread_with_min_version_leads_with_hint_then_rotates() {
    let mut client = client_with_voters(vec![1, 2, 3]);
    client.set_leader_hint(0, 3);

    // A `min_version` floor keeps the hinted leader first every attempt (it
    // is likeliest caught up), while the remaining voters still rotate as a
    // spread fallback.
    let a = client.candidate_nodes(0, RouteOrder::Spread { prefer_hint: true });
    let b = client.candidate_nodes(0, RouteOrder::Spread { prefer_hint: true });
    assert_eq!(a, vec![3, 1, 2]);
    assert_eq!(b, vec![3, 2, 1]);

    // Still full permutations: every candidate reachable within a round.
    for order in [&a, &b] {
        let mut sorted = order.clone();
        sorted.sort();
        assert_eq!(sorted, vec![1, 2, 3]);
    }
}

#[test]
fn redirect_candidates_extend_a_stale_placement() {
    let mut client = client_with_voters(vec![1, 2, 3]);
    client.apply_redirect(
        0,
        1,
        &Redirect { cluster_id: 1, leader: None, candidates: vec![2, 3, 4] },
    );
    assert_eq!(
        client.candidate_nodes(0, RouteOrder::LeaderFirst),
        vec![1, 2, 3, 4]
    );
}

#[test]
fn an_unavailable_candidate_is_skipped_rather_than_failing_the_operation() {
    let mut client = Client::new(1, 9);
    client.refresh_routing(routing(vec![1, 4], LogId::new(1, 1)));
    let mut walk = RouteWalk::begin(&mut client, 0, RouteOrder::LeaderFirst);
    // Node 1 answers first and cannot serve; the operation must walk to the
    // healthy replica instead of failing on an undecodable body.
    assert_eq!(walk.next_call(&client), Some((1, "node-1".to_string())));
    assert_eq!(
        walk.on_answer(&mut client, 1, 1, Answer::Unreadable),
        WalkStep::Continue
    );
    assert_eq!(walk.next_call(&client), Some((4, "node-4".to_string())));
    assert_eq!(
        walk.on_answer(&mut client, 4, 1, Answer::Final),
        WalkStep::Finished
    );
    assert_eq!(
        finish_read(ClientReply::Value(Some((7, b"new".to_vec())))),
        Ok(Some((7, b"new".to_vec())))
    );
}

#[test]
fn a_newer_placement_snapshot_retires_redirect_candidates() {
    let mut client = Client::new(1, 9);
    client.refresh_routing(routing(vec![1, 2, 3], LogId::new(1, 1)));
    client.apply_redirect(
        0,
        1,
        &Redirect { cluster_id: 1, leader: None, candidates: vec![9] },
    );
    assert_eq!(
        client.candidate_nodes(0, RouteOrder::LeaderFirst),
        vec![1, 2, 3, 9]
    );

    // The refreshed placement is newer than the redirect that taught us
    // node 9, so it already names everyone who can serve: stop carrying an
    // id that may since have been decommissioned.
    client.refresh_routing(routing(vec![1, 2, 3], LogId::new(2, 10)));
    assert_eq!(
        client.candidate_nodes(0, RouteOrder::LeaderFirst),
        vec![1, 2, 3]
    );
}

#[test]
fn a_redirect_newer_than_the_refreshed_snapshot_is_kept() {
    let mut client = Client::new(1, 9);
    client.refresh_routing(routing(vec![1, 2, 3], LogId::new(1, 1)));
    client.apply_redirect(
        0,
        1,
        &Redirect { cluster_id: 1, leader: None, candidates: vec![9] },
    );
    // Same placement generation: the snapshot is no fresher than the
    // redirect, so the hint is still the client's only lead on node 9.
    client.refresh_routing(routing(vec![1, 2, 3], LogId::new(1, 1)));
    assert_eq!(
        client.candidate_nodes(0, RouteOrder::LeaderFirst),
        vec![1, 2, 3, 9]
    );
}

#[test]
fn redirect_to_an_unknown_node_refreshes_its_address() {
    let mut client = Client::new(1, 9);
    client.refresh_routing(routing(vec![1], LogId::new(1, 1)));
    let mut walk = RouteWalk::begin(&mut client, 0, RouteOrder::LeaderFirst);
    assert_eq!(walk.next_call(&client), Some((1, "node-1".to_string())));
    assert_eq!(
        walk.on_answer(
            &mut client,
            1,
            1,
            Answer::Redirect(Redirect { cluster_id: 1, leader: Some(4), candidates: vec![4] }),
        ),
        WalkStep::Continue
    );
    // The named leader's address is not known yet.
    assert_eq!(walk.next_call(&client), None);
    // A refresh is tried, but what the redirect taught is enough to go on.
    assert!(!walk.must_refresh());
    client.refresh_routing(RoutingInfo {
        cluster_id: 1,
        p: 1,
        hash_spec: HashSpec::CANONICAL,
        directory: vec![directory_entry(1, "node-1"), directory_entry(4, "node-4")],
        placements: vec![(0, placement(vec![1, 2, 4], LogId::new(2, 10)))],
    });
    assert!(walk.next_round(&mut client));
    assert_eq!(walk.next_call(&client), Some((4, "node-4".to_string())));
}

#[test]
fn foreign_answers_end_the_walk() {
    let mut client = Client::new(1, 9);
    client.refresh_routing(routing(vec![1, 4], LogId::new(1, 1)));
    let mut walk = RouteWalk::begin(&mut client, 0, RouteOrder::LeaderFirst);
    assert_eq!(
        walk.on_answer(&mut client, 1, 2, Answer::Final),
        WalkStep::ForeignReply
    );
    assert_eq!(
        walk.on_answer(
            &mut client,
            1,
            1,
            Answer::Redirect(Redirect { cluster_id: 5, leader: Some(4), candidates: vec![9] }),
        ),
        WalkStep::ForeignRedirect(5)
    );
    // Nothing was learned.
    assert_eq!(client.candidate_nodes(0, RouteOrder::LeaderFirst), vec![1, 4]);
    assert_eq!(
        foreign_reply(2, 1),
        Error::Raft("reply from cluster 0x2, expected 0x1".to_string())
    );
    assert_eq!(
        foreign_redirect(5, 1),
        Error::Raft("redirect from cluster 0x5, expected 0x1".to_string())
    );
    assert_eq!(
        foreign_search(false),
        Error::Search("search reply came from another cluster".to_string())
    );
    assert_eq!(
        foreign_search(true),
        Error::Search("search redirect came from another cluster".to_string())
    );
}

#[test]
fn walks_end_after_their_rounds() {
    let mut client = Client::new(1, 9);
    client.refresh_routing(routing(vec![1], LogId::new(1, 1)));
    let mut walk = RouteWalk::begin(&mut client, 0, RouteOrder::LeaderFirst);
    let mut calls = 0;
    loop {
        while walk.next_call(&client).is_some() {
            calls += 1;
        }
        if !walk.next_round(&mut client) {
            break;
        }
    }
    assert_eq!(calls, 16);
    assert!(walk.must_refresh());
    assert_eq!(
        route_exhausted(3),
        Error::Io("no candidate served partition 3 within 16 rounds".to_string())
    );
    assert_eq!(
        search_exhausted(3),
        Error::Search("no candidate served search partition 3".to_string())
    );
}

#[test]
fn reads_spread_and_writes_go_to_the_leader() {
    assert_eq!(route_order(Consistency::Linearizable), RouteOrder::LeaderFirst);
    assert_eq!(
        route_order(Consistency::Stale { min_version: None }),
        RouteOrder::Spread { prefer_hint: false }
    );
    assert_eq!(
        route_order(Consistency::Stale { min_version: Some(4) }),
        RouteOrder::Spread { prefer_hint: true }
    );
}

#[test]
fn a_retry_keeps_its_sequence() {
    let mut client = client_with_voters(vec![1, 2, 3]);
    let op = put(b"k", b"v");
    assert_eq!(client.pending_sequence(0, &op), Ok(1));
    // An uncertain outcome: the same mutation keeps its sequence, and another one
    // has to wait.
    let unsure = ClientReply::Error("write failed".to_string());
    assert!(client.finish_mutation(0, 1, &unsure).is_err());
    assert_eq!(client.pending_sequence(0, &op), Ok(1));
    assert!(client.pending_sequence(0, &put(b"k", b"w")).is_err());
    let done = ClientReply::Mutation(WriteReply::Applied { version: 9 });
    assert_eq!(
        client.finish_mutation(0, 1, &done),
        Ok(WriteReply::Applied { version: 9 })
    );
    assert_eq!(client.pending_sequence(0, &put(b"k", b"w")), Ok(2));
    let request = client.mutation_request(2, &put(b"k", b"w"));
    assert_eq!((request.client_id, request.sequence), (1, 2));
}

#[test]
fn a_refused_mutation_gives_its_sequence_back() {
    let mut client = client_with_voters(vec![1, 2, 3]);
    let op = put(b"k", b"v");
    assert_eq!(client.pending_sequence(0, &op), Ok(1));
    let refused = ClientReply::Refused("no".to_string());
    assert!(client.finish_mutation(0, 1, &refused).is_err());
    assert_eq!(client.pending_sequence(0, &put(b"other", b"v")), Ok(1));
    // Streams are kept by partition.
    assert_eq!(client.pending_sequence(3, &op), Ok(1));
}

#[test]
fn decided_failures_consume_the_sequence() {
    let mut client = client_with_voters(vec![1, 2, 3]);
    let op = put(b"k", b"v");
    client.pending_sequence(0, &op).unwrap();
    let failed = ClientReply::Mutation(WriteReply::ConditionFailed {
        current: KeyPresence::Absent,
    });
    assert_eq!(
        client.finish_mutation(0, 1, &failed),
        Ok(WriteReply::ConditionFailed { current: KeyPresence::Absent })
    );
    assert_eq!(client.pending_sequence(0, &op), Ok(2));
    let rejected = ClientReply::Mutation(WriteReply::Rejected(RejectReason::SequenceMismatch));
    let _ = client.finish_mutation(0, 2, &rejected);
}

#[test]
fn reads_give_values_or_errors() {
    assert_eq!(finish_read(ClientReply::Value(None)), Ok(None));
    assert!(finish_read(ClientReply::Refused("x".into())).is_err());
    assert!(finish_read(ClientReply::Error("x".into())).is_err());
}

#[test]
fn clients_route_by_key() {
    let mut client = Client::new(1, 9);
    assert_eq!(client.partition_of(b"key"), None);
    assert_eq!(client.routing_params(), None);
    client.refresh_routing(routing(vec![1, 4], LogId::new(1, 1)));
    assert_eq!(client.routing_params(), Some((1, HashSpec::CANONICAL)));
    assert_eq!(client.partition_of(b"key"), Some(0));
    assert_eq!(client.resolve_addr(4), Some("node-4".to_string()));
    assert_eq!(client.resolve_addr(5), None);
    assert_eq!(client.cluster(), 1);
    let a = client.next_request_id();
    let b = client.next_request_id();
    assert_ne!(a, b);
    let reply = Envelope::new(1, MsgType::MetaQuery, GroupId::Meta, 0, Vec::new());
    assert!(client.answers_routing(&reply));
    let foreign = Envelope::new(2, MsgType::MetaQuery, GroupId::Meta, 0, Vec::new());
    assert!(!client.answers_routing(&foreign));
}

#[test]
fn searches_need_an_active_generation() {
    let definition = SearchIndexDefinition { source: vec![1], hash: [3; 32], defect: None };
    let generation = SearchIndexGeneration {
        id: 5,
        engine_revision: 2,
        definition: definition.duplicate(),
        definition_hash: [3; 32],
    };
    let name = "ti\"tles".to_string();
    let record = |active| SearchIndexRecord {
        name: name.clone(),
        active,
        building: None,
        retiring: Vec::new(),
    };
    assert_eq!(
        active_generation(&name, Some(record(Some(generation.duplicate())))).map(|g| g.id),
        Ok(5)
    );
    // The index is named in its quoted form.
    assert_eq!(
        active_generation(&name, None),
        Err(Error::Search("index \"ti\\\"tles\" does not exist".to_string()))
    );
    assert_eq!(
        active_generation(&name, Some(record(None))),
        Err(Error::Search("index \"ti\\\"tles\" has no active generation".to_string()))
    );
}
