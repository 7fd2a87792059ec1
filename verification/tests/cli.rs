//! What the operator's commands read and print.
use dal::api::ops::RoutingInfo;
use dal::cli::{flag, parse_group, parse_id, print_routing, report};
use dal::error::Error;
use dal::meta::state_machine::{MetaApplyResult, MetaReject};
use dal::types::{
    GroupId, HashSpec, LogId, MovePlan, NodeDirectoryEntry, NodeState, Placement,
};

fn args(list: &[&str]) -> Vec<String> {
    list.iter().map(|s| s.to_string()).collect()
}

#[test]
fn flags_take_what_stands_behind_them() {
    let a = args(&["--config", "n.json", "--cluster", "c.json", "--config", "late"]);
    assert_eq!(flag(&a, "--config").map(String::as_str), Some("n.json"));
    assert_eq!(flag(&a, "--cluster").map(String::as_str), Some("c.json"));
    assert_eq!(flag(&a, "--seed"), None);
    assert_eq!(flag(&args(&["--seed"]), "--seed"), None);
}

#[test]
fn groups_are_named_or_numbered() {
    assert_eq!(parse_group("meta"), Ok(GroupId::Meta));
    assert_eq!(parse_group("MeTa"), Ok(GroupId::Meta));
    assert_eq!(parse_group("17"), Ok(GroupId::Data(17)));
    assert_eq!(parse_group("65535"), Ok(GroupId::Data(65535)));
    for text in ["", "metal", "-1", "65536", "x", "+"] {
        let why = text.parse::<u16>().unwrap_err();
        assert_eq!(
            parse_group(text),
            Err(format!("--group must be 'meta' or a partition number: {why}"))
        );
    }
}

#[test]
fn ids_are_decimal() {
    assert_eq!(parse_id("42"), Some(42));
    assert_eq!(parse_id("+42"), Some(42));
    assert_eq!(parse_id("18446744073709551615"), Some(u64::MAX));
    assert_eq!(parse_id("18446744073709551616"), None);
    assert_eq!(parse_id("0x2a"), None);
    assert_eq!(parse_id(""), None);
}

#[test]
fn outcomes_are_reported() {
    let line = |r| {
        let r = report("leave", &r);
        (r.text, r.success)
    };
    assert_eq!(line(Ok(MetaApplyResult::Applied)), ("leave: applied".to_string(), true));
    assert_eq!(
        line(Ok(MetaApplyResult::NoOp)),
        ("leave: no change (already applied)".to_string(), true)
    );
    assert_eq!(
        line(Ok(MetaApplyResult::Rejected(MetaReject::UnknownNode))),
        ("leave: rejected: UnknownNode".to_string(), false)
    );
    assert_eq!(
        line(Err(Error::Raft("lost".to_string()))),
        ("leave: raft: lost".to_string(), false)
    );
}

#[test]
fn the_routing_snapshot_is_printed_in_order() {
    let info = RoutingInfo {
        cluster_id: 0xabc,
        p: 2,
        hash_spec: HashSpec::CANONICAL,
        directory: vec![NodeDirectoryEntry {
            node_id: 3,
            control_addr: "tcp://a".into(),
            bulk_addr: "tcp://b".into(),
            state: NodeState::Draining,
            incarnation: 5,
        }],
        placements: vec![
            (
                1,
                Placement {
                    voters: vec![1, 2, 3],
                    voters_log_id: LogId::new(1, 1),
                    move_plan: Some(MovePlan {
                        plan_id: 9,
                        target_voters: vec![1, 2, 4],
                        aborting: false,
                    }),
                },
            ),
            (
                0,
                Placement {
                    voters: Vec::new(),
                    voters_log_id: LogId::new(1, 1),
                    move_plan: None,
                },
            ),
        ],
    };
    let e = &info.directory[0];
    let want = vec![
        format!("cluster_id: {:#x}", info.cluster_id),
        format!("partitions (p): {}", info.p),
        "nodes:".to_string(),
        format!(
            "  {:>4}  {:<28}  {:?}  incarnation={}",
            e.node_id, e.control_addr, e.state, e.incarnation
        ),
        "placements:".to_string(),
        format!("  partition {:>4}: voters {:?}", 0, Vec::<u64>::new()),
        format!(
            "  partition {:>4}: voters {:?}  (move plan {} -> {:?})",
            1,
            vec![1, 2, 3],
            9,
            vec![1, 2, 4]
        ),
    ];
    assert_eq!(print_routing(&info), want);
}
