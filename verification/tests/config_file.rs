//! Configuration as files spell it.
use dal::config::Timeouts;
use dal::error::Error;
use dal::meta::bootstrap::DirEntry;
use dal::runtime::config_file::{
    cluster_id_hex, initial_placements, load_init_descriptor, load_node_config, parse_cluster_id,
    InitFile, NodeFile,
};
use dal::time::Duration;
use dal::types::{HashSpec, NodeId, PROTOCOL_VERSION};

fn node_file(cluster_id: &str, control: &str, bulk: &str, timeouts: Timeouts) -> NodeFile {
    NodeFile {
        cluster_id: cluster_id.to_string(),
        node_id: 1,
        control_addr: control.to_string(),
        bulk_addr: bulk.to_string(),
        http_addr: None,
        seeds: Vec::new(),
        data_dir: "/tmp/d".to_string(),
        timeouts,
    }
}

fn entry(node_id: NodeId, control: &str, bulk: &str) -> DirEntry {
    DirEntry {
        node_id,
        control_addr: control.to_string(),
        bulk_addr: bulk.to_string(),
    }
}

fn init_file(meta_voters: Vec<NodeId>) -> InitFile {
    InitFile {
        cluster_id: "0xabc".to_string(),
        p: 8,
        r: 3,
        hash_spec: None,
        meta_voters,
        nodes: vec![
            entry(3, "tcp://127.0.0.1:5031", "tcp://127.0.0.1:5032"),
            entry(1, "tcp://127.0.0.1:5011", "tcp://127.0.0.1:5012"),
            entry(2, "tcp://127.0.0.1:5021", "tcp://127.0.0.1:5022"),
        ],
    }
}

#[test]
fn node_file_round_trip() {
    let file = NodeFile {
        cluster_id: "0xdeadbeef".to_string(),
        node_id: 1,
        control_addr: "tcp://127.0.0.1:5001".to_string(),
        bulk_addr: "tcp://127.0.0.1:5002".to_string(),
        http_addr: Some("127.0.0.1:7001".to_string()),
        seeds: vec!["tcp://127.0.0.1:5011".to_string()],
        data_dir: "/tmp/dal-1".to_string(),
        timeouts: Timeouts {
            suspect: Duration::from_millis(1000),
            down: Duration::from_millis(5000),
            request: Duration::from_millis(2000),
        },
    };
    let cfg = load_node_config(file).unwrap();
    assert_eq!(cfg.cluster_id, 0xdeadbeef);
    assert_eq!(cfg.node_id, 1);
    assert_eq!(cfg.http_addr.as_deref(), Some("127.0.0.1:7001"));
    assert_eq!(cfg.timeouts.suspect.as_millis(), 1000);
    assert_eq!(cfg.timeouts.down.as_millis(), 5000);
    assert_eq!(cfg.seeds, vec!["tcp://127.0.0.1:5011".to_string()]);
    assert_eq!(cfg.data_dir, "/tmp/dal-1");
}

#[test]
fn node_file_defaults() {
    let mut file = node_file(
        "42",
        "tcp://127.0.0.1:5001",
        "tcp://127.0.0.1:5002",
        Timeouts::default(),
    );
    file.node_id = 2;
    file.data_dir = "/tmp/dal-2".to_string();
    let cfg = load_node_config(file).unwrap();
    assert_eq!(cfg.cluster_id, 0x42);
    assert_eq!(cfg.http_addr, None);
    assert!(cfg.seeds.is_empty());
    assert_eq!(cfg.timeouts, Timeouts::default());
}

#[test]
fn node_file_rejects_invalid() {
    // Same control/bulk addr fails the configuration's own check.
    let same = node_file("1", "tcp://x", "tcp://x", Timeouts::default());
    assert!(load_node_config(same).is_err());

    // Bad hex cluster id.
    let bad_id = node_file("zz", "tcp://a", "tcp://b", Timeouts::default());
    assert!(load_node_config(bad_id).is_err());

    // Bad timeouts (down < suspect).
    let bad_times = node_file(
        "1",
        "tcp://a",
        "tcp://b",
        Timeouts {
            suspect: Duration::from_millis(5000),
            down: Duration::from_millis(1000),
            request: Duration::from_millis(1000),
        },
    );
    assert!(load_node_config(bad_times).is_err());
}

#[test]
fn init_descriptor_is_deterministic_and_sorted() {
    let a = load_init_descriptor(init_file(vec![1, 2, 3])).unwrap();
    let b = load_init_descriptor(init_file(vec![1, 2, 3])).unwrap();
    assert_eq!(a, b);

    assert_eq!(a.cluster_id, 0xabc);
    assert_eq!(a.config.p, 8);
    assert_eq!(a.config.r, 3);
    assert_eq!(a.config.protocol_version, PROTOCOL_VERSION);
    assert_eq!(a.config.hash_spec, HashSpec::CANONICAL);
    assert_eq!(a.meta_voters, vec![1, 2, 3]);
    // Directory sorted by node id regardless of file order.
    let ids: Vec<NodeId> = a.directory.iter().map(|e| e.node_id).collect();
    assert_eq!(ids, vec![1, 2, 3]);
    assert_eq!(a.data_placements.len(), 8);
}

#[test]
fn descriptors_do_not_depend_on_file_order() {
    let mut file = init_file(vec![3, 1, 2]);
    file.nodes.reverse();
    assert_eq!(
        load_init_descriptor(file).unwrap().directory,
        load_init_descriptor(init_file(vec![3, 1, 2])).unwrap().directory
    );
}

#[test]
fn init_rejects_duplicate_addr() {
    let mut file = init_file(vec![1, 2, 3]);
    file.nodes[2].control_addr = "tcp://127.0.0.1:5011".to_string();
    assert!(load_init_descriptor(file).is_err());
}

#[test]
fn init_rejects_invalid_init_config() {
    // meta voter not in node set.
    assert!(load_init_descriptor(init_file(vec![1, 2, 9])).is_err());
}

#[test]
fn placements_cover_all_partitions_with_r_distinct_voters() {
    let nodes = vec![1u64, 2, 3, 4, 5];
    let placements = initial_placements(16, 3, &nodes);
    assert_eq!(placements.len(), 16);
    for (i, (part, voters)) in placements.iter().enumerate() {
        assert_eq!(*part, i as u16);
        assert_eq!(voters.len(), 3);
        let distinct: std::collections::BTreeSet<_> = voters.iter().collect();
        assert_eq!(distinct.len(), 3, "partition {part} has duplicate voters");
        for v in voters {
            assert!(nodes.contains(v));
        }
    }
    // Round-robin spreads leaders-by-first-voter across nodes.
    let firsts: std::collections::BTreeSet<NodeId> =
        placements.iter().map(|(_, v)| v[0]).collect();
    assert_eq!(firsts.len(), nodes.len());
}

#[test]
fn placements_deterministic() {
    let nodes = vec![1u64, 2, 3];
    assert_eq!(
        initial_placements(4, 3, &nodes),
        initial_placements(4, 3, &nodes)
    );
}

#[test]
fn cluster_id_hex_round_trips() {
    for id in [0u128, 1, 0xdeadbeef, u128::MAX] {
        assert_eq!(parse_cluster_id(&cluster_id_hex(id)).unwrap(), id);
    }
}

#[test]
fn cluster_ids_are_spelled_in_hexadecimal() {
    assert_eq!(cluster_id_hex(0xdeadbeef), "0xdeadbeef");
    assert_eq!(parse_cluster_id("0xABC"), Ok(0xabc));
    assert_eq!(parse_cluster_id("+ff"), Ok(0xff));
    for (text, why) in [
        ("", "cannot parse integer from empty string"),
        ("0x", "cannot parse integer from empty string"),
        ("zz", "invalid digit found in string"),
        ("+", "invalid digit found in string"),
        (
            "100000000000000000000000000000000",
            "number too large to fit in target type",
        ),
    ] {
        assert_eq!(
            parse_cluster_id(text),
            Err(Error::Config(format!("cluster_id must be a hex u128: {why}")))
        );
        // The texts are those of the standard parser.
        let std_error = u128::from_str_radix(text.trim_start_matches("0x"), 16).unwrap_err();
        assert_eq!(std_error.to_string(), why);
    }
}
