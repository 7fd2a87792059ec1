//! Finding the authoritative directory, and the operator's way to the leader.
use dal::api::ops::RoutingInfo;
use dal::config::{NodeConfig, Timeouts};
use dal::error::Error;
use dal::meta::bootstrap::{BootstrapDescriptor, DirEntry};
use dal::meta::state_machine::MetaApplyResult;
use dal::runtime::admin::{
    join_body, require_seeds, routing_reply_matches, status_failure, status_mismatch,
    status_unreadable, SubmitWalk, Targets,
};
use dal::runtime::directory::{
    directory_timeout, no_authority, replaces_endpoint, DirectoryQueryReply, DirectoryStep, DirectoryWalk,
};
use dal::transport::{Envelope, MsgType};
use dal::types::{
    ClusterConfig, GroupId, HashSpec, NodeDirectoryEntry, NodeId, NodeState, PROTOCOL_VERSION,
};
use dal::wire::SubmitReply;

fn entry(node_id: NodeId, control_addr: &str) -> NodeDirectoryEntry {
    NodeDirectoryEntry {
        node_id,
        control_addr: control_addr.into(),
        bulk_addr: format!("{control_addr}-bulk"),
        state: NodeState::Active,
        incarnation: 1,
    }
}

fn texts(list: &[&str]) -> Vec<String> {
    list.iter().map(|s| s.to_string()).collect()
}

fn descriptor() -> BootstrapDescriptor {
    BootstrapDescriptor {
        cluster_id: 7,
        config: ClusterConfig {
            cluster_id: 7,
            protocol_version: PROTOCOL_VERSION,
            p: 1,
            r: 3,
            hash_spec: HashSpec::CANONICAL,
        },
        meta_voters: vec![1, 2, 3],
        directory: (1..=3)
            .map(|node_id| DirEntry {
                node_id,
                control_addr: format!("n{node_id}"),
                bulk_addr: format!("b{node_id}"),
            })
            .collect(),
        data_placements: vec![(0, vec![1, 2, 3])],
    }
}

fn reply(cluster_id: u128) -> Envelope {
    Envelope::new(cluster_id, MsgType::LeaveRequest, GroupId::Meta, 1, Vec::new())
}

#[test]
fn follower_data_only_resolves_the_authoritative_leader() {
    let directory = vec![entry(1, "follower"), entry(2, "leader")];
    let (mut walk, ask) = DirectoryWalk::begin(7, &texts(&["follower"]));
    assert_eq!(ask, texts(&["follower"]));
    // The follower's data is not the answer: it only says where to ask next.
    let more = match walk.on_reply(DirectoryQueryReply::NotLeader {
        leader: Some(2),
        directory_hint: directory.clone(),
    }) {
        DirectoryStep::Ask(more) => more,
        DirectoryStep::Found(_) => panic!("a follower has no authority"),
    };
    assert_eq!(more, texts(&["leader"]));
    match walk.on_reply(DirectoryQueryReply::Value(directory.clone())) {
        DirectoryStep::Found(found) => assert_eq!(found, directory),
        DirectoryStep::Ask(_) => panic!("the leader answered"),
    }
}

#[test]
fn follower_hint_is_never_returned_as_authority() {
    let (mut walk, _) = DirectoryWalk::begin(7, &texts(&["follower"]));
    match walk.on_reply(DirectoryQueryReply::NotLeader {
        leader: None,
        directory_hint: vec![entry(1, "follower")],
    }) {
        // Nothing is left to ask, so the search fails.
        DirectoryStep::Ask(more) => assert!(more.is_empty()),
        DirectoryStep::Found(_) => panic!("a follower has no authority"),
    }
    assert_eq!(
        no_authority(),
        Error::Raft("no meta leader returned an authoritative directory".to_string())
    );
    assert_eq!(
        directory_timeout(),
        Error::Raft("authoritative directory query timed out".to_string())
    );
}

#[test]
fn the_named_leader_is_asked_first() {
    let (mut walk, ask) = DirectoryWalk::begin(7, &texts(&["a", "b", "a"]));
    assert_eq!(ask, texts(&["a", "b"]));
    let hint = vec![entry(1, "a"), entry(2, "c"), entry(3, "d")];
    match walk.on_reply(DirectoryQueryReply::NotLeader { leader: Some(3), directory_hint: hint }) {
        DirectoryStep::Ask(more) => assert_eq!(more, texts(&["d", "c"])),
        DirectoryStep::Found(_) => panic!("a follower has no authority"),
    }
    match walk.on_reply(DirectoryQueryReply::Unavailable) {
        DirectoryStep::Ask(more) => assert!(more.is_empty()),
        DirectoryStep::Found(_) => panic!("nothing was found"),
    }
    let answer = Envelope::new(7, MsgType::DirectoryQuery, GroupId::Meta, 0, Vec::new());
    assert!(walk.answers(&answer));
    let foreign = Envelope::new(8, MsgType::DirectoryQuery, GroupId::Meta, 0, Vec::new());
    assert!(!walk.answers(&foreign));
    assert!(!walk.answers(&reply(7)));
}

#[test]
fn targets_come_from_the_descriptor() {
    let pinned = "pinned".to_string();
    let t = Targets::from_descriptor(&descriptor(), Some(&pinned), &vec![2, 9, 1, 2]);
    assert_eq!(t.candidates(), texts(&["pinned", "n2", "n1"]));
    let t = Targets::from_descriptor(&descriptor(), None, &vec![1, 2, 3]);
    assert_eq!(t.candidates(), texts(&["n1", "n2", "n3"]));
}

#[test]
fn a_live_directory_replaces_the_descriptor() {
    let mut t = Targets::from_descriptor(&descriptor(), None, &vec![1]);
    t.adopt_directory(&vec![entry(1, "n1"), entry(4, "n4")]);
    assert_eq!(t.candidates(), texts(&["n1", "n4"]));
    // Node 2 is gone from the directory, so a hint at it cannot be followed.
    let mut walk = SubmitWalk::begin(&t);
    assert_eq!(walk.next(), Some("n1".to_string()));
    let hint = Ok(SubmitReply::NotLeader { leader: Some(2) });
    assert_eq!(walk.on_reply(&t, 7, &reply(7), hint), None);
    assert_eq!(walk.next(), Some("n4".to_string()));

    let mut t = Targets::from_descriptor(&descriptor(), None, &vec![1]);
    t.extend_directory(&vec![entry(4, "n4")]);
    let mut walk = SubmitWalk::begin(&t);
    assert_eq!(walk.next(), Some("n1".to_string()));
    let hint = Ok(SubmitReply::NotLeader { leader: Some(2) });
    assert_eq!(walk.on_reply(&t, 7, &reply(7), hint), None);
    assert_eq!(walk.next(), Some("n2".to_string()));
}

#[test]
fn routing_answers_add_addresses() {
    let info = |cluster_id| RoutingInfo {
        cluster_id,
        p: 1,
        hash_spec: HashSpec::CANONICAL,
        directory: vec![entry(4, "n4")],
        placements: Vec::new(),
    };
    let envelope =
        |cluster, msg_type| Envelope::new(cluster, msg_type, GroupId::Meta, 0, Vec::new());
    let mut t = Targets::from_descriptor(&descriptor(), None, &vec![1]);
    assert!(!t.on_routing(7, &envelope(8, MsgType::MetaQuery), Some(&info(7))));
    assert!(!t.on_routing(7, &envelope(7, MsgType::Heartbeat), Some(&info(7))));
    assert!(!t.on_routing(7, &envelope(7, MsgType::MetaQuery), Some(&info(8))));
    assert!(!t.on_routing(7, &envelope(7, MsgType::MetaQuery), None));
    assert_eq!(t.candidates(), texts(&["n1"]));
    assert!(t.on_routing(7, &envelope(7, MsgType::MetaQuery), Some(&info(7))));
    assert_eq!(t.candidates(), texts(&["n1", "n4"]));
}

#[test]
fn a_command_follows_hints_to_the_leader() {
    let t = Targets::from_descriptor(&descriptor(), None, &vec![1, 2, 3]);
    let mut walk = SubmitWalk::begin(&t);
    assert_eq!(walk.next(), Some("n1".to_string()));
    assert_eq!(walk.attempt(), 1);
    let hint = Ok(SubmitReply::NotLeader { leader: Some(3) });
    assert_eq!(walk.on_reply(&t, 7, &reply(7), hint), None);
    assert_eq!(walk.next(), Some("n3".to_string()));
    assert_eq!(walk.attempt(), 2);
    let outcome = Ok(SubmitReply::Outcome(MetaApplyResult::Applied));
    assert_eq!(
        walk.on_reply(&t, 7, &reply(7), outcome),
        Some(MetaApplyResult::Applied)
    );
}

#[test]
fn a_command_that_nobody_takes_says_why() {
    let t = Targets::from_descriptor(&descriptor(), None, &vec![1, 2, 3]);
    let mut walk = SubmitWalk::begin(&t);
    assert_eq!(
        walk.failure(),
        Error::Raft("no cluster member accepted the command".to_string())
    );
    let refusal = Ok(SubmitReply::Error("no quorum".to_string()));
    assert_eq!(walk.on_reply(&t, 7, &reply(7), refusal), None);
    assert_eq!(walk.failure(), Error::Raft("no quorum".to_string()));
    let outcome = Ok(SubmitReply::Outcome(MetaApplyResult::Applied));
    assert_eq!(walk.on_reply(&t, 7, &reply(8), outcome), None);
    assert_eq!(
        walk.failure(),
        Error::Raft("reply from cluster 0x8, expected 0x7".to_string())
    );
    assert_eq!(walk.on_reply(&t, 7, &reply(7), Err("eof".to_string())), None);
    assert_eq!(walk.failure(), Error::Raft("undecodable reply: eof".to_string()));
}

#[test]
fn attempts_are_bounded() {
    let seeds: Vec<String> = (0..40).map(|i| format!("s{}", i % 35)).collect();
    let t = Targets::from_seeds(&seeds);
    let mut walk = SubmitWalk::begin(&t);
    let mut tried = 0;
    while walk.next().is_some() {
        tried += 1;
    }
    assert_eq!(tried, 32);
}

#[test]
fn joining_needs_a_seed() {
    assert_eq!(
        require_seeds(&Vec::new()),
        Err(Error::Config("join needs at least one seed in the node config".to_string()))
    );
    assert_eq!(require_seeds(&texts(&["a"])), Ok(()));
    let cfg = NodeConfig {
        cluster_id: 7,
        node_id: 9,
        control_addr: "c".into(),
        bulk_addr: "b".into(),
        http_addr: None,
        seeds: texts(&["a"]),
        data_dir: "/d".into(),
        timeouts: Timeouts::default(),
    };
    let body = join_body(&cfg);
    assert_eq!((body.node_id, body.control_addr.as_str(), body.bulk_addr.as_str()), (9, "c", "b"));
}

#[test]
fn status_queries_say_what_went_wrong() {
    let addr = "n1".to_string();
    assert_eq!(status_mismatch(&addr), "unexpected routing reply from n1");
    assert_eq!(
        status_unreadable(&addr, "eof"),
        "undecodable routing reply from n1: eof"
    );
    assert_eq!(
        status_failure(None),
        Error::Raft("no cluster member answered a routing query".to_string())
    );
    assert_eq!(status_failure(Some(&addr)), Error::Raft("n1".to_string()));
    let answer = Envelope::new(7, MsgType::MetaQuery, GroupId::Meta, 1, Vec::new());
    assert!(routing_reply_matches(7, &answer));
    assert!(!routing_reply_matches(8, &answer));
    assert!(!routing_reply_matches(7, &reply(7)));
}

#[test]
fn a_node_is_asked_at_its_last_address() {
    let (mut walk, _) = DirectoryWalk::begin(7, &texts(&["s"]));
    let hint = || vec![entry(1, "a"), entry(2, "c"), entry(1, "b")];
    let step = walk.on_reply(DirectoryQueryReply::NotLeader {
        leader: Some(1),
        directory_hint: hint(),
    });
    match step {
        DirectoryStep::Ask(more) => assert_eq!(more, texts(&["b", "c"])),
        DirectoryStep::Found(_) => panic!("a follower has no authority"),
    }
    let step = walk.on_reply(DirectoryQueryReply::NotLeader {
        leader: None,
        directory_hint: vec![entry(3, "a"), entry(1, "b"), entry(3, "d")],
    });
    match step {
        DirectoryStep::Ask(more) => assert_eq!(more, texts(&["d"])),
        DirectoryStep::Found(_) => panic!("a follower has no authority"),
    }
}

#[test]
fn later_incarnations_replace_endpoints() {
    assert!(replaces_endpoint(None, 1));
    assert!(replaces_endpoint(Some(1), 2));
    assert!(!replaces_endpoint(Some(2), 2));
    assert!(!replaces_endpoint(Some(2), 1));
}
