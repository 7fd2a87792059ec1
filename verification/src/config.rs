//! Static, validated configuration.
//!
//! [`NodeConfig`] is what a running node is started with. [`InitConfig`] is the
//! cluster-creation input, where the partition count and the replication factor
//! are chosen once; a node learns them from the committed cluster record.
use crate::error::{config_error, Error, ErrorView};
use crate::sets::{difference, holds, rising_ids};
use crate::text::{decimal, prefixed, to_decimal};
use crate::time::Duration;
use crate::types::{ClusterId, HashSpec, NodeId};
use vstd::prelude::*;

verus! {

/// Failure-detection and request timeouts.
#[derive(Debug, Clone, Copy, PartialEq, Eq, Structural)]
pub struct Timeouts {
    pub suspect: Duration,
    pub down: Duration,
    pub request: Duration,
}

impl Default for Timeouts {
    fn default() -> (t: Timeouts)
        ensures
            t.suspect@ == 3_000_000_000,
            t.down@ == 15_000_000_000,
            t.request@ == 5_000_000_000,
    {
        Timeouts {
            suspect: Duration::from_secs(3),
            down: Duration::from_secs(15),
            request: Duration::from_secs(5),
        }
    }
}

/// The error of a set of timeouts, if it has one: a node is suspected after a
/// positive silence, and declared down no sooner than it is suspected.
pub open spec fn timeouts_defect(t: Timeouts) -> Option<ErrorView> {
    if t.suspect@ == 0 {
        Some(ErrorView::Config("suspect_timeout must be > 0"@))
    } else if t.down@ < t.suspect@ {
        Some(ErrorView::Config("down_timeout must be >= suspect_timeout"@))
    } else {
        None
    }
}

impl Timeouts {
    /// Check the timeouts.
    pub fn validate(&self) -> (r: Result<(), Error>)
        ensures
            match r {
                Ok(_) => timeouts_defect(*self) is None,
                Err(e) => timeouts_defect(*self) == Some(e@),
            },
    {
        if self.suspect.is_zero() {
            return Err(config_error("suspect_timeout must be > 0"));
        }
        if self.down.as_nanos() < self.suspect.as_nanos() {
            return Err(config_error("down_timeout must be >= suspect_timeout"));
        }
        Ok(())
    }
}

/// Per-node runtime configuration: identity and endpoints.
#[derive(Debug, Clone, PartialEq, Eq)]
pub struct NodeConfig {
    pub cluster_id: ClusterId,
    pub node_id: NodeId,
    pub control_addr: String,
    pub bulk_addr: String,
    /// Optional read-only admin listener; absent means it is disabled.
    pub http_addr: Option<String>,
    pub seeds: Vec<String>,
    pub data_dir: String,
    pub timeouts: Timeouts,
}

#[verifier::ext_equal]
pub struct NodeConfigView {
    pub cluster_id: ClusterId,
    pub node_id: NodeId,
    pub control_addr: Seq<char>,
    pub bulk_addr: Seq<char>,
    pub http_addr: Option<Seq<char>>,
    pub seeds: Seq<Seq<char>>,
    pub data_dir: Seq<char>,
    pub timeouts: Timeouts,
}

impl View for NodeConfig {
    type V = NodeConfigView;

    open spec fn view(&self) -> NodeConfigView {
        NodeConfigView {
            cluster_id: self.cluster_id,
            node_id: self.node_id,
            control_addr: self.control_addr@,
            bulk_addr: self.bulk_addr@,
            http_addr: match self.http_addr {
                Some(a) => Some(a@),
                None => None,
            },
            seeds: self.seeds@.map_values(|s: String| s@),
            data_dir: self.data_dir@,
            timeouts: self.timeouts,
        }
    }
}

impl NodeConfigView {
    /// The first error of the configuration, if it has one.
    pub open spec fn defect(self) -> Option<ErrorView> {
        if self.node_id == 0 {
            Some(ErrorView::Config("node_id must be non-zero"@))
        } else if self.control_addr.len() == 0 {
            Some(ErrorView::Config("control_addr must be set"@))
        } else if self.bulk_addr.len() == 0 {
            Some(ErrorView::Config("bulk_addr must be set"@))
        } else if self.control_addr == self.bulk_addr {
            Some(ErrorView::Config("control_addr and bulk_addr must differ (separate lanes)"@))
        } else if self.http_addr matches Some(http) && http.len() == 0 {
            Some(ErrorView::Config("http_addr, if set, must be non-empty"@))
        } else if self.http_addr matches Some(http) && (http == self.control_addr || http
            == self.bulk_addr) {
            Some(ErrorView::Config("http_addr must differ from control_addr and bulk_addr"@))
        } else if self.data_dir.len() == 0 {
            Some(ErrorView::Config("data_dir must be set"@))
        } else {
            timeouts_defect(self.timeouts)
        }
    }
}

impl NodeConfig {
    /// Check the configuration.
    pub fn validate(&self) -> (r: Result<(), Error>)
        ensures
            match r {
                Ok(_) => self@.defect() is None,
                Err(e) => self@.defect() == Some(e@),
            },
    {
        if self.node_id == 0 {
            return Err(config_error("node_id must be non-zero"));
        }
        if self.control_addr.as_str().is_empty() {
            return Err(config_error("control_addr must be set"));
        }
        if self.bulk_addr.as_str().is_empty() {
            return Err(config_error("bulk_addr must be set"));
        }
        if self.control_addr == self.bulk_addr {
            return Err(config_error("control_addr and bulk_addr must differ (separate lanes)"));
        }
        if let Some(http) = &self.http_addr {
            if http.as_str().is_empty() {
                return Err(config_error("http_addr, if set, must be non-empty"));
            }
            if *http == self.control_addr || *http == self.bulk_addr {
                return Err(config_error("http_addr must differ from control_addr and bulk_addr"));
            }
        }
        if self.data_dir.as_str().is_empty() {
            return Err(config_error("data_dir must be set"));
        }
        self.timeouts.validate()
    }
}

/// The minimum replication factor: below three there is no fault tolerance.
pub const MIN_REPLICATION: u8 = 3;

/// The minimum meta-voter set size.
pub const MIN_META_VOTERS: usize = 3;

/// The error of a routing shape, if it has one.
pub open spec fn routing_shape_defect(p: u16, r: u8) -> Option<ErrorView> {
    if p == 0 {
        Some(ErrorView::Config("P must be > 0"@))
    } else if r < MIN_REPLICATION {
        Some(ErrorView::Config("R must be >= "@ + decimal(MIN_REPLICATION as nat)))
    } else {
        None
    }
}

/// Check that keys can be routed over `p` partitions of `r` replicas.
pub fn validate_routing_shape(p: u16, r: u8) -> (res: Result<(), Error>)
    ensures
        match res {
            Ok(_) => routing_shape_defect(p, r) is None,
            Err(e) => routing_shape_defect(p, r) == Some(e@),
        },
{
    if p == 0 {
        return Err(config_error("P must be > 0"));
    }
    if r < MIN_REPLICATION {
        return Err(
            Error::Config(prefixed("R must be >= ", to_decimal(MIN_REPLICATION as u128).as_str())),
        );
    }
    Ok(())
}

/// Cluster-creation input.
#[derive(Debug, Clone, PartialEq, Eq)]
pub struct InitConfig {
    pub p: u16,
    pub r: u8,
    /// Distinct node ids present at bootstrap, at least `r` of them.
    pub bootstrap_nodes: Vec<NodeId>,
    /// The initial meta voters: an odd set of bootstrap nodes.
    pub meta_voters: Vec<NodeId>,
    pub hash_spec: HashSpec,
}

#[verifier::ext_equal]
pub struct InitConfigView {
    pub p: u16,
    pub r: u8,
    pub bootstrap_nodes: Seq<NodeId>,
    pub meta_voters: Seq<NodeId>,
    pub hash_spec: HashSpec,
}

impl View for InitConfig {
    type V = InitConfigView;

    open spec fn view(&self) -> InitConfigView {
        InitConfigView {
            p: self.p,
            r: self.r,
            bootstrap_nodes: self.bootstrap_nodes@,
            meta_voters: self.meta_voters@,
            hash_spec: self.hash_spec,
        }
    }
}

impl InitConfigView {
    /// The first error of the input, if it has one.
    pub open spec fn defect(self) -> Option<ErrorView> {
        if self.p == 0 {
            Some(ErrorView::Config("P must be > 0"@))
        } else if self.r < MIN_REPLICATION {
            Some(ErrorView::Config("R must be >= "@ + decimal(MIN_REPLICATION as nat)))
        } else if !self.bootstrap_nodes.no_duplicates() {
            Some(ErrorView::Config("bootstrap_nodes must be distinct"@))
        } else if self.bootstrap_nodes.contains(0) {
            Some(ErrorView::Config("node ids must be non-zero"@))
        } else if self.bootstrap_nodes.len() < self.r {
            Some(
                ErrorView::Config(
                    "need at least R="@ + decimal(self.r as nat)
                        + " distinct bootstrap nodes, got "@ + decimal(self.bootstrap_nodes.len()),
                ),
            )
        } else if !self.meta_voters.no_duplicates() {
            Some(ErrorView::Config("meta_voters must be distinct"@))
        } else if self.meta_voters.len() < MIN_META_VOTERS {
            Some(
                ErrorView::Config(
                    "meta voter set must have >= "@ + decimal(MIN_META_VOTERS as nat)
                        + " distinct nodes"@,
                ),
            )
        } else if self.meta_voters.len() % 2 == 0 {
            Some(ErrorView::Config("meta voter set must be odd"@))
        } else if !self.meta_voters.to_set().subset_of(self.bootstrap_nodes.to_set()) {
            Some(ErrorView::Config("every meta voter must be a bootstrap node"@))
        } else {
            None
        }
    }
}

/// The partition count an operator asked for, or the reason to refuse it.
pub open spec fn partition_count_of(n: u64) -> Result<u16, ErrorView> {
    if n == 0 {
        Err(ErrorView::Config("P must be > 0"@))
    } else if n > u16::MAX {
        Err(ErrorView::Config("P must be <= "@ + decimal(u16::MAX as nat) + " (u16 bound)"@))
    } else {
        Ok(n as u16)
    }
}

/// Read an operator-supplied partition count; one that does not fit is an
/// error, never wrapped.
pub fn parse_partition_count(n: u64) -> (r: Result<u16, Error>)
    ensures
        match r {
            Ok(p) => partition_count_of(n) == Ok::<u16, ErrorView>(p) && p == n,
            Err(e) => partition_count_of(n) == Err::<u16, ErrorView>(e@),
        },
{
    if n == 0 {
        return Err(config_error("P must be > 0"));
    }
    if n > u16::MAX as u64 {
        let mut text = prefixed("P must be <= ", to_decimal(u16::MAX as u128).as_str());
        text.append(" (u16 bound)");
        return Err(Error::Config(text));
    }
    Ok(n as u16)
}

impl InitConfig {
    /// Check the input.
    pub fn validate(&self) -> (r: Result<(), Error>)
        ensures
            match r {
                Ok(_) => self@.defect() is None,
                Err(e) => self@.defect() == Some(e@),
            },
    {
        if self.p == 0 {
            return Err(config_error("P must be > 0"));
        }
        if self.r < MIN_REPLICATION {
            return Err(
                Error::Config(
                    prefixed("R must be >= ", to_decimal(MIN_REPLICATION as u128).as_str()),
                ),
            );
        }
        let bootstrap = rising_ids(&self.bootstrap_nodes);
        if bootstrap.len() != self.bootstrap_nodes.len() {
            return Err(config_error("bootstrap_nodes must be distinct"));
        }
        if holds(&self.bootstrap_nodes, 0) {
            return Err(config_error("node ids must be non-zero"));
        }
        if bootstrap.len() < self.r as usize {
            let mut text = prefixed("need at least R=", to_decimal(self.r as u128).as_str());
            text.append(" distinct bootstrap nodes, got ");
            text.append(to_decimal(bootstrap.len() as u128).as_str());
            return Err(Error::Config(text));
        }
        let meta = rising_ids(&self.meta_voters);
        if meta.len() != self.meta_voters.len() {
            return Err(config_error("meta_voters must be distinct"));
        }
        if meta.len() < MIN_META_VOTERS {
            let mut text = prefixed(
                "meta voter set must have >= ",
                to_decimal(MIN_META_VOTERS as u128).as_str(),
            );
            text.append(" distinct nodes");
            return Err(Error::Config(text));
        }
        if meta.len() % 2 == 0 {
            return Err(config_error("meta voter set must be odd"));
        }
        let outside = difference(&meta, &self.bootstrap_nodes);
        proof {
            let m = self.meta_voters@.to_set();
            let b = self.bootstrap_nodes@.to_set();
            if outside@.len() == 0 {
                assert(outside@.to_set() =~= Set::<u64>::empty());
                assert forall|x: u64| m.contains(x) implies b.contains(x) by {
                    if !b.contains(x) {
                        assert(m.difference(b).contains(x));
                    }
                }
            } else {
                assert(outside@.to_set().contains(outside@[0]));
            }
        }
        if !outside.is_empty() {
            return Err(config_error("every meta voter must be a bootstrap node"));
        }
        Ok(())
    }
}

/// Timeouts are sound if and only if the suspect timeout is not zero and the down
/// timeout is no shorter.
pub proof fn law_timeouts_are_ordered(t: Timeouts)
    ensures
        timeouts_defect(t) is None <==> 0 < t.suspect@ && t.suspect@ <= t.down@,
{
}

/// A routing shape is sound if and only if there is a partition and it has at least
/// three replicas; a partition count is sound if and only if it is not zero and fits
/// two bytes.
pub proof fn law_routing_shapes(p: u16, r: u8, n: u64)
    ensures
        routing_shape_defect(p, r) is None <==> p >= 1 && r >= 3,
        partition_count_of(n) is Ok <==> 1 <= n <= 65535,
        partition_count_of(n) matches Ok(count) ==> count == n,
{
}

/// A node's configuration is sound if and only if its id is not zero, its two lanes
/// have distinct addresses, an HTTP address that is set is a third one, the data
/// directory is set and the timeouts are sound.
pub proof fn law_node_configs(c: NodeConfigView)
    ensures
        c.defect() is None <==> {
            &&& c.node_id != 0
            &&& c.control_addr.len() > 0
            &&& c.bulk_addr.len() > 0
            &&& c.control_addr != c.bulk_addr
            &&& c.http_addr is Some ==> c.http_addr->0.len() > 0 && c.http_addr->0 != c.control_addr
                && c.http_addr->0 != c.bulk_addr
            &&& c.data_dir.len() > 0
            &&& 0 < c.timeouts.suspect@ && c.timeouts.suspect@ <= c.timeouts.down@
        },
{
}

/// A cluster's founding input is sound if and only if there is a partition of at
/// least three replicas, at least as many distinct, non-zero bootstrap nodes as
/// replicas, and an odd set of at least three distinct meta voters among them.
pub proof fn law_init_configs(c: InitConfigView)
    ensures
        c.defect() is None <==> {
            &&& c.p >= 1
            &&& c.r >= 3
            &&& c.bootstrap_nodes.no_duplicates()
            &&& forall|i: int|
                0 <= i < c.bootstrap_nodes.len() ==> (#[trigger] c.bootstrap_nodes[i]) != 0
            &&& c.bootstrap_nodes.len() >= c.r
            &&& c.meta_voters.no_duplicates()
            &&& c.meta_voters.len() >= 3
            &&& c.meta_voters.len() % 2 == 1
            &&& forall|i: int|
                0 <= i < c.meta_voters.len() ==> c.bootstrap_nodes.contains(
                    #[trigger] c.meta_voters[i],
                )
        },
{
    let nodes = c.bootstrap_nodes.to_set();
    let voters = c.meta_voters.to_set();
    if voters.subset_of(nodes) {
        assert forall|i: int| 0 <= i < c.meta_voters.len() implies c.bootstrap_nodes.contains(
            #[trigger] c.meta_voters[i],
        ) by {
            assert(voters.contains(c.meta_voters[i]));
            assert(nodes.contains(c.meta_voters[i]));
        }
    } else {
        let v = choose|v: NodeId| voters.contains(v) && !nodes.contains(v);
        let i = c.meta_voters.index_of(v);
        assert(c.meta_voters[i] == v);
        assert(!c.bootstrap_nodes.contains(v)) by {
            if c.bootstrap_nodes.contains(v) {
                assert(nodes.contains(v));
            }
        }
    }
    if c.bootstrap_nodes.contains(0) {
        let i = c.bootstrap_nodes.index_of(0);
        assert(c.bootstrap_nodes[i] == 0);
    }
}

} // verus!
