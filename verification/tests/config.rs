//! Validation of configuration.
use dal::config::{
    parse_partition_count, validate_routing_shape, InitConfig, NodeConfig, Timeouts,
};
use dal::error::Error;
use dal::time::Duration;
use dal::types::HashSpec;

fn base_init() -> InitConfig {
    InitConfig {
        p: 128,
        r: 3,
        bootstrap_nodes: vec![1, 2, 3],
        meta_voters: vec![1, 2, 3],
        hash_spec: HashSpec::CANONICAL,
    }
}

fn node_config() -> NodeConfig {
    NodeConfig {
        cluster_id: 42,
        node_id: 1,
        control_addr: "tcp://127.0.0.1:5001".into(),
        bulk_addr: "tcp://127.0.0.1:5002".into(),
        http_addr: Some("127.0.0.1:7001".into()),
        seeds: vec!["tcp://127.0.0.1:5001".into()],
        data_dir: "/tmp/dal".into(),
        timeouts: Timeouts::default(),
    }
}

fn config(text: &str) -> Error {
    Error::Config(text.to_string())
}

#[test]
fn valid_init_passes() {
    base_init().validate().unwrap();
}

#[test]
fn partition_count_bounds() {
    assert!(parse_partition_count(0).is_err());
    assert_eq!(parse_partition_count(1).unwrap(), 1);
    assert_eq!(parse_partition_count(128).unwrap(), 128);
    assert_eq!(parse_partition_count(u16::MAX as u64).unwrap(), u16::MAX);
    assert!(parse_partition_count(u16::MAX as u64 + 1).is_err());
    assert!(parse_partition_count(1_000_000).is_err());
}

#[test]
fn p_zero_rejected() {
    let mut c = base_init();
    c.p = 0;
    assert!(c.validate().is_err());
}

#[test]
fn r_below_three_rejected() {
    for r in [0u8, 1, 2] {
        let mut c = base_init();
        c.r = r;
        assert!(c.validate().is_err(), "R={r} should be rejected");
    }
}

#[test]
fn too_few_bootstrap_nodes_rejected() {
    let mut c = base_init();
    c.r = 5;
    c.bootstrap_nodes = vec![1, 2, 3];
    c.meta_voters = vec![1, 2, 3];
    assert!(c.validate().is_err());
}

#[test]
fn duplicate_bootstrap_nodes_rejected() {
    let mut c = base_init();
    c.bootstrap_nodes = vec![1, 2, 2];
    assert!(c.validate().is_err());
}

#[test]
fn zero_node_id_rejected() {
    let mut c = base_init();
    c.bootstrap_nodes = vec![0, 1, 2];
    c.meta_voters = vec![0, 1, 2];
    assert!(c.validate().is_err());
}

#[test]
fn even_meta_voter_set_rejected() {
    let mut c = base_init();
    c.r = 3;
    c.bootstrap_nodes = vec![1, 2, 3, 4];
    c.meta_voters = vec![1, 2, 3, 4];
    assert!(c.validate().is_err());
}

#[test]
fn too_small_meta_voter_set_rejected() {
    let mut c = base_init();
    c.bootstrap_nodes = vec![1, 2, 3];
    c.meta_voters = vec![1];
    assert!(c.validate().is_err());
}

#[test]
fn meta_voter_not_in_bootstrap_rejected() {
    let mut c = base_init();
    c.bootstrap_nodes = vec![1, 2, 3];
    c.meta_voters = vec![1, 2, 9];
    assert!(c.validate().is_err());
}

#[test]
fn odd_five_meta_voters_ok() {
    let mut c = base_init();
    c.bootstrap_nodes = vec![1, 2, 3, 4, 5];
    c.meta_voters = vec![1, 2, 3, 4, 5];
    c.validate().unwrap();
}

#[test]
fn node_config_validation() {
    let mut nc = node_config();
    nc.validate().unwrap();

    nc.http_addr = None;
    nc.validate().unwrap();
    nc.http_addr = Some("127.0.0.1:7001".into());

    nc.node_id = 0;
    assert!(nc.validate().is_err());
    nc.node_id = 1;

    nc.bulk_addr = nc.control_addr.clone();
    assert!(nc.validate().is_err());
    nc.bulk_addr = "tcp://127.0.0.1:5002".into();

    nc.http_addr = Some(nc.control_addr.clone());
    assert!(nc.validate().is_err());
    nc.http_addr = Some(String::new());
    assert!(nc.validate().is_err());
}

#[test]
fn down_before_suspect_rejected() {
    let t = Timeouts {
        suspect: Duration::from_secs(10),
        down: Duration::from_secs(5),
        request: Duration::from_secs(5),
    };
    assert!(t.validate().is_err());
}

#[test]
fn each_init_defect_has_its_text() {
    let mut c = base_init();
    c.p = 0;
    assert_eq!(c.validate(), Err(config("P must be > 0")));
    let mut c = base_init();
    c.r = 2;
    assert_eq!(c.validate(), Err(config("R must be >= 3")));
    let mut c = base_init();
    c.bootstrap_nodes = vec![1, 2, 2];
    assert_eq!(c.validate(), Err(config("bootstrap_nodes must be distinct")));
    let mut c = base_init();
    c.bootstrap_nodes = vec![0, 1, 2];
    assert_eq!(c.validate(), Err(config("node ids must be non-zero")));
    let mut c = base_init();
    c.r = 5;
    assert_eq!(
        c.validate(),
        Err(config("need at least R=5 distinct bootstrap nodes, got 3"))
    );
    let mut c = base_init();
    c.meta_voters = vec![1, 1, 2];
    assert_eq!(c.validate(), Err(config("meta_voters must be distinct")));
    let mut c = base_init();
    c.meta_voters = vec![1];
    assert_eq!(
        c.validate(),
        Err(config("meta voter set must have >= 3 distinct nodes"))
    );
    let mut c = base_init();
    c.bootstrap_nodes = vec![1, 2, 3, 4];
    c.meta_voters = vec![1, 2, 3, 4];
    assert_eq!(c.validate(), Err(config("meta voter set must be odd")));
    let mut c = base_init();
    c.meta_voters = vec![1, 2, 9];
    assert_eq!(
        c.validate(),
        Err(config("every meta voter must be a bootstrap node"))
    );
}

#[test]
fn each_node_config_defect_has_its_text() {
    let mut nc = node_config();
    nc.node_id = 0;
    assert_eq!(nc.validate(), Err(config("node_id must be non-zero")));
    let mut nc = node_config();
    nc.control_addr = String::new();
    assert_eq!(nc.validate(), Err(config("control_addr must be set")));
    let mut nc = node_config();
    nc.bulk_addr = String::new();
    assert_eq!(nc.validate(), Err(config("bulk_addr must be set")));
    let mut nc = node_config();
    nc.bulk_addr = nc.control_addr.clone();
    assert_eq!(
        nc.validate(),
        Err(config("control_addr and bulk_addr must differ (separate lanes)"))
    );
    let mut nc = node_config();
    nc.http_addr = Some(String::new());
    assert_eq!(nc.validate(), Err(config("http_addr, if set, must be non-empty")));
    let mut nc = node_config();
    nc.http_addr = Some(nc.bulk_addr.clone());
    assert_eq!(
        nc.validate(),
        Err(config("http_addr must differ from control_addr and bulk_addr"))
    );
    let mut nc = node_config();
    nc.data_dir = String::new();
    assert_eq!(nc.validate(), Err(config("data_dir must be set")));
    let mut nc = node_config();
    nc.timeouts.suspect = Duration::from_millis(0);
    assert_eq!(nc.validate(), Err(config("suspect_timeout must be > 0")));
    let mut nc = node_config();
    nc.timeouts.down = Duration::from_millis(1);
    nc.timeouts.suspect = Duration::from_millis(2);
    assert_eq!(
        nc.validate(),
        Err(config("down_timeout must be >= suspect_timeout"))
    );
}

#[test]
fn partition_counts_that_do_not_fit_are_refused() {
    assert_eq!(parse_partition_count(0), Err(config("P must be > 0")));
    assert_eq!(
        parse_partition_count(65_536),
        Err(config("P must be <= 65535 (u16 bound)"))
    );
}

#[test]
fn routing_shapes() {
    assert_eq!(validate_routing_shape(1, 3), Ok(()));
    assert_eq!(validate_routing_shape(0, 3), Err(config("P must be > 0")));
    assert_eq!(validate_routing_shape(1, 2), Err(config("R must be >= 3")));
}
