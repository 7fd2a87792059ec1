//! The life of a node process: which descriptor it accepts, which registration
//! it runs under, which groups it starts, resumes, joins and gives up, and what
//! its control loops send.
use crate::api::ops::{directory_entry, find_node};
use crate::config::{
    routing_shape_defect, validate_routing_shape, InitConfig, InitConfigView, NodeConfig,
    NodeConfigView,
};
use crate::error::{config_error, Error, ErrorView};
use crate::meta::bootstrap::{
    designated, ensure_bootstrap_group, is_lowest, marked, seed_views, BootstrapDescriptor,
    DescriptorView, DirEntryView,
};
use crate::meta::failure::DirectoryState;
use crate::meta::laws::lemma_rising_exists;
use crate::meta::rebalancer::{lemma_difference_list, placement_view};
use crate::meta::state_machine::endpoint_bytes;
use crate::runtime::rebalance::{reclaimable, should_reclaim};
use crate::sets::{difference, holds, lemma_rising_set, rising_ids, rising_members, same_list};
use crate::storage::{Storage, StorageView};
use crate::strings::{copy_texts, holds_text, texts};
use crate::text::{decimal, prefixed, to_decimal};
use crate::time::Duration;
use crate::transport::{Envelope, MsgType};
use crate::types::{
    entry_views, BindingView, BootstrapGroup, BootstrapGroupView, ClusterId, GroupId,
    LearnerAdmission, MetaCommand, MetaCommandView, NodeDirectoryEntry, NodeEntryView, NodeId,
    NodeState, Placement, PlacementView, ProcessIdentityGate, RegistrationBinding, ServingState,
    MAX_CLUSTER_NODES, MAX_ENDPOINT_BYTES, PROTOCOL_VERSION,
};
use crate::wire::HeartbeatBody;
use vstd::prelude::*;
use vstd::utf8::encode_utf8;

verus! {

// -- the descriptor --------------------------------------------------------------

/// The endpoints of a descriptor's nodes, in order: control, then bulk.
pub open spec fn endpoints(directory: Seq<DirEntryView>) -> Seq<Seq<char>>
    decreases directory.len(),
{
    if directory.len() == 0 {
        Seq::empty()
    } else {
        endpoints(directory.drop_last()).push(directory.last().control_addr).push(
            directory.last().bulk_addr,
        )
    }
}

/// The first error in a list of endpoints: each must be set and of bounded
/// length, and none may occur twice.
pub open spec fn endpoint_defect(list: Seq<Seq<char>>) -> Option<ErrorView>
    decreases list.len(),
{
    if list.len() == 0 {
        None
    } else {
        let head = list.drop_last();
        let last = list.last();
        match endpoint_defect(head) {
            Some(e) => Some(e),
            None => if last.len() == 0 || encode_utf8(last).len() > MAX_ENDPOINT_BYTES {
                Some(
                    ErrorView::Config(
                        "bootstrap descriptor endpoints must be 1..="@ + decimal(
                            MAX_ENDPOINT_BYTES as nat,
                        ) + " bytes"@,
                    ),
                )
            } else if head.contains(last) {
                Some(
                    ErrorView::Config("bootstrap descriptor endpoints must be globally unique"@),
                )
            } else {
                None
            },
        }
    }
}

/// Whether some entry of a list of placements is of a partition.
pub open spec fn places(list: Seq<(u16, Seq<NodeId>)>, partition: u16) -> bool {
    exists|i: int| 0 <= i < list.len() && (#[trigger] list[i]).0 == partition
}

/// The first error in a list of initial placements: each partition at most once,
/// each with exactly so many distinct voters of the directory.
pub open spec fn placements_defect(
    list: Seq<(u16, Seq<NodeId>)>,
    p: u16,
    r: u8,
    nodes: Set<NodeId>,
) -> Option<ErrorView>
    decreases list.len(),
{
    if list.len() == 0 {
        None
    } else {
        let head = list.drop_last();
        let (partition, voters) = list.last();
        match placements_defect(head, p, r, nodes) {
            Some(e) => Some(e),
            None => if partition >= p || places(head, partition) {
                Some(
                    ErrorView::Config(
                        "bootstrap descriptor has an invalid or duplicate partition"@,
                    ),
                )
            } else if voters.len() != r || !voters.no_duplicates() || !voters.to_set().subset_of(
                nodes,
            ) {
                Some(
                    ErrorView::Config(
                        "partition "@ + decimal(partition as nat)
                            + " must have exactly R distinct directory voters"@,
                    ),
                )
            } else {
                None
            },
        }
    }
}

/// The nodes of a descriptor, in order.
pub open spec fn descriptor_nodes(directory: Seq<DirEntryView>) -> Seq<NodeId> {
    directory.map_values(|d: DirEntryView| d.node_id)
}

/// The first error of a node's configuration under a descriptor, if it has one.
pub open spec fn descriptor_defect(cfg: NodeConfigView, desc: DescriptorView) -> Option<ErrorView> {
    let nodes = descriptor_nodes(desc.directory);
    let init = InitConfigView {
        p: desc.config.p,
        r: desc.config.r,
        bootstrap_nodes: nodes,
        meta_voters: desc.meta_voters,
        hash_spec: desc.config.hash_spec,
    };
    if cfg.defect() is Some {
        cfg.defect()
    } else if routing_shape_defect(desc.config.p, desc.config.r) is Some {
        routing_shape_defect(desc.config.p, desc.config.r)
    } else if cfg.cluster_id != desc.cluster_id || desc.config.cluster_id != desc.cluster_id {
        Some(
            ErrorView::Config("node config and bootstrap descriptor disagree on cluster_id"@),
        )
    } else if desc.config.protocol_version != PROTOCOL_VERSION {
        Some(
            ErrorView::Config(
                "bootstrap descriptor protocol version "@ + decimal(
                    desc.config.protocol_version as nat,
                ) + " is incompatible with runtime version "@ + decimal(PROTOCOL_VERSION as nat),
            ),
        )
    } else if desc.directory.len() > MAX_CLUSTER_NODES {
        Some(
            ErrorView::Config(
                "bootstrap descriptor has more than "@ + decimal(MAX_CLUSTER_NODES as nat)
                    + " nodes"@,
            ),
        )
    } else if init.defect() is Some {
        init.defect()
    } else if endpoint_defect(endpoints(desc.directory)) is Some {
        endpoint_defect(endpoints(desc.directory))
    } else if desc.data_placements.len() != desc.config.p {
        Some(
            ErrorView::Config(
                "bootstrap descriptor must contain exactly "@ + decimal(desc.config.p as nat)
                    + " data placements"@,
            ),
        )
    } else {
        placements_defect(
            desc.data_placements,
            desc.config.p,
            desc.config.r,
            nodes.to_set(),
        )
    }
}

fn check_endpoint(seen: &mut Vec<String>, address: &String) -> (r: Result<(), Error>)
    requires
        endpoint_defect(texts(old(seen)@)) is None,
    ensures
        texts(final(seen)@) == texts(old(seen)@).push(address@),
        match r {
            Ok(_) => endpoint_defect(texts(final(seen)@)) is None,
            Err(e) => endpoint_defect(texts(final(seen)@)) == Some(e@),
        },
{
    let ghost before = texts(seen@);
    let empty: bool = address.as_str().is_empty();
    let long: bool = endpoint_bytes(address) > MAX_ENDPOINT_BYTES;
    let known: bool = holds_text(seen, address);
    seen.push(address.clone());
    proof {
        assert(texts(seen@) =~= before.push(address@));
        assert(before.push(address@).drop_last() =~= before);
    }
    if empty || long {
        let mut s = prefixed(
            "bootstrap descriptor endpoints must be 1..=",
            to_decimal(MAX_ENDPOINT_BYTES as u128).as_str(),
        );
        s.append(" bytes");
        return Err(Error::Config(s));
    }
    if known {
        return Err(config_error("bootstrap descriptor endpoints must be globally unique"));
    }
    Ok(())
}

proof fn lemma_endpoint_defect_stays(list: Seq<Seq<char>>, n: int)
    requires
        0 <= n <= list.len(),
        endpoint_defect(list.take(n)) is Some,
    ensures
        endpoint_defect(list) == endpoint_defect(list.take(n)),
    decreases list.len() - n,
{
    if n == list.len() {
        assert(list.take(n) =~= list);
    } else {
        assert(list.take(n + 1).drop_last() =~= list.take(n));
        lemma_endpoint_defect_stays(list, n + 1);
    }
}

proof fn lemma_endpoints_prefix(directory: Seq<DirEntryView>, n: int)
    requires
        0 <= n <= directory.len(),
    ensures
        endpoints(directory.take(n)).len() == 2 * n,
        endpoints(directory).len() == 2 * directory.len(),
        endpoints(directory).take(2 * n) == endpoints(directory.take(n)),
    decreases directory.len(),
{
    let all = endpoints(directory);
    if n == directory.len() {
        assert(directory.take(n) =~= directory);
        if n > 0 {
            lemma_endpoints_prefix(directory.drop_last(), n - 1);
            assert(directory.drop_last().take(n - 1) =~= directory.drop_last());
        }
        assert(all.take(2 * n) =~= all);
    } else {
        lemma_endpoints_prefix(directory.drop_last(), n);
        assert(directory.drop_last().take(n) =~= directory.take(n));
        assert(all.take(2 * n) =~= endpoints(directory.drop_last()).take(2 * n));
    }
}

proof fn lemma_placements_defect_stays(
    list: Seq<(u16, Seq<NodeId>)>,
    p: u16,
    r: u8,
    nodes: Set<NodeId>,
    n: int,
)
    requires
        0 <= n <= list.len(),
        placements_defect(list.take(n), p, r, nodes) is Some,
    ensures
        placements_defect(list, p, r, nodes) == placements_defect(list.take(n), p, r, nodes),
    decreases list.len() - n,
{
    if n == list.len() {
        assert(list.take(n) =~= list);
    } else {
        assert(list.take(n + 1).drop_last() =~= list.take(n));
        lemma_placements_defect_stays(list, p, r, nodes, n + 1);
    }
}

fn check_endpoints(desc: &BootstrapDescriptor) -> (r: Result<(), Error>)
    ensures
        match r {
            Ok(_) => endpoint_defect(endpoints(desc@.directory)) is None,
            Err(e) => endpoint_defect(endpoints(desc@.directory)) == Some(e@),
        },
{
    let ghost views = desc@.directory;
    let ghost all = endpoints(views);
    let mut seen: Vec<String> = Vec::new();
    let mut i: usize = 0;
    proof {
        assert(views.take(0) =~= Seq::<DirEntryView>::empty());
        assert(texts(seen@) =~= endpoints(views.take(0)));
    }
    while i < desc.directory.len()
        invariant
            i <= desc.directory@.len(),
            views == desc@.directory,
            all == endpoints(views),
            texts(seen@) == endpoints(views.take(i as int)),
            endpoint_defect(texts(seen@)) is None,
        decreases desc.directory@.len() - i,
    {
        let entry = &desc.directory[i];
        let ghost before = texts(seen@);
        proof {
            assert(views[i as int] == entry@);
            assert(views.take(i + 1).drop_last() =~= views.take(i as int));
            assert(views.take(i + 1).last() == views[i as int]);
            lemma_endpoints_prefix(views, i as int);
            lemma_endpoints_prefix(views, i + 1);
            assert(endpoints(views.take(i + 1)) == before.push(entry.control_addr@).push(
                entry.bulk_addr@,
            ));
        }
        let control = check_endpoint(&mut seen, &entry.control_addr);
        if let Err(e) = control {
            proof {
                assert(all.take(2 * i + 1) =~= all.take(2 * (i + 1)).take(2 * i + 1));
                assert(all.take(2 * i + 1) =~= texts(seen@));
                lemma_endpoint_defect_stays(all, 2 * i + 1);
            }
            return Err(e);
        }
        let bulk = check_endpoint(&mut seen, &entry.bulk_addr);
        if let Err(e) = bulk {
            proof {
                assert(all.take(2 * (i + 1)) =~= texts(seen@));
                lemma_endpoint_defect_stays(all, 2 * (i + 1));
            }
            return Err(e);
        }
        i += 1;
    }
    assert(views.take(i as int) =~= views);
    Ok(())
}

fn placed(list: &Vec<(u16, Vec<NodeId>)>, n: usize, partition: u16) -> (yes: bool)
    requires
        n <= list@.len(),
    ensures
        yes == places(seed_views(list@).take(n as int), partition),
{
    let ghost views = seed_views(list@).take(n as int);
    let mut i: usize = 0;
    while i < n
        invariant
            i <= n <= list@.len(),
            views == seed_views(list@).take(n as int),
            forall|k: int| 0 <= k < i ==> (#[trigger] views[k]).0 != partition,
        decreases n - i,
    {
        assert(views[i as int].0 == list@[i as int].0);
        if list[i].0 == partition {
            return true;
        }
        i += 1;
    }
    false
}

fn check_placements(desc: &BootstrapDescriptor, nodes: &Vec<NodeId>) -> (r: Result<(), Error>)
    ensures
        ({
            let defect = placements_defect(
                desc@.data_placements,
                desc@.config.p,
                desc@.config.r,
                nodes@.to_set(),
            );
            match r {
                Ok(_) => defect is None,
                Err(e) => defect == Some(e@),
            }
        }),
{
    let ghost views = desc@.data_placements;
    let ghost set = nodes@.to_set();
    let p: u16 = desc.config.p;
    let rf: u8 = desc.config.r;
    let mut i: usize = 0;
    assert(views.take(0) =~= Seq::<(u16, Seq<NodeId>)>::empty());
    while i < desc.data_placements.len()
        invariant
            i <= desc.data_placements@.len(),
            views == seed_views(desc.data_placements@),
            set == nodes@.to_set(),
            p == desc@.config.p,
            rf == desc@.config.r,
            placements_defect(views.take(i as int), p, rf, set) is None,
        decreases desc.data_placements@.len() - i,
    {
        let partition: u16 = desc.data_placements[i].0;
        let voters = &desc.data_placements[i].1;
        proof {
            assert(views[i as int] == (partition, voters@));
            assert(views.take(i + 1).drop_last() =~= views.take(i as int));
            assert(views.take(i + 1).last() == views[i as int]);
        }
        if partition >= p || placed(&desc.data_placements, i, partition) {
            proof {
                lemma_placements_defect_stays(views, p, rf, set, i + 1);
            }
            return Err(
                config_error("bootstrap descriptor has an invalid or duplicate partition"),
            );
        }
        let distinct = rising_ids(voters);
        let outside = difference(&distinct, nodes);
        proof {
            let v = voters@.to_set();
            if outside@.len() == 0 {
                assert(outside@.to_set() =~= Set::<u64>::empty());
                assert forall|x: u64| v.contains(x) implies set.contains(x) by {
                    if !set.contains(x) {
                        assert(v.difference(set).contains(x));
                    }
                }
            } else {
                assert(outside@.to_set().contains(outside@[0]));
            }
        }
        if voters.len() != rf as usize || distinct.len() != voters.len() || outside.len() != 0 {
            proof {
                lemma_placements_defect_stays(views, p, rf, set, i + 1);
            }
            let mut s = prefixed("partition ", to_decimal(partition as u128).as_str());
            s.append(" must have exactly R distinct directory voters");
            return Err(Error::Config(s));
        }
        i += 1;
    }
    assert(views.take(i as int) =~= views);
    Ok(())
}

/// Check a node's configuration and the cluster's descriptor. A node that is not
/// in the descriptor may have joined later, and its endpoints are checked against
/// its live registration, not here.
pub fn validate_node_descriptor(cfg: &NodeConfig, desc: &BootstrapDescriptor) -> (r: Result<
    (),
    Error,
>)
    ensures
        match r {
            Ok(_) => descriptor_defect(cfg@, desc@) is None,
            Err(e) => descriptor_defect(cfg@, desc@) == Some(e@),
        },
{
    if let Err(e) = cfg.validate() {
        return Err(e);
    }
    if let Err(e) = validate_routing_shape(desc.config.p, desc.config.r) {
        return Err(e);
    }
    if cfg.cluster_id != desc.cluster_id || desc.config.cluster_id != desc.cluster_id {
        return Err(config_error("node config and bootstrap descriptor disagree on cluster_id"));
    }
    if desc.config.protocol_version != PROTOCOL_VERSION {
        let mut s = prefixed(
            "bootstrap descriptor protocol version ",
            to_decimal(desc.config.protocol_version as u128).as_str(),
        );
        s.append(" is incompatible with runtime version ");
        s.append(to_decimal(PROTOCOL_VERSION as u128).as_str());
        return Err(Error::Config(s));
    }
    if desc.directory.len() > MAX_CLUSTER_NODES {
        let mut s = prefixed(
            "bootstrap descriptor has more than ",
            to_decimal(MAX_CLUSTER_NODES as u128).as_str(),
        );
        s.append(" nodes");
        return Err(Error::Config(s));
    }
    let mut nodes: Vec<NodeId> = Vec::new();
    let mut i: usize = 0;
    while i < desc.directory.len()
        invariant
            i <= desc.directory@.len(),
            nodes@ == descriptor_nodes(desc@.directory).take(i as int),
        decreases desc.directory@.len() - i,
    {
        nodes.push(desc.directory[i].node_id);
        assert(nodes@ =~= descriptor_nodes(desc@.directory).take(i + 1));
        i += 1;
    }
    assert(nodes@ =~= descriptor_nodes(desc@.directory));
    let init = InitConfig {
        p: desc.config.p,
        r: desc.config.r,
        bootstrap_nodes: nodes.clone(),
        meta_voters: desc.meta_voters.clone(),
        hash_spec: desc.config.hash_spec,
    };
    if let Err(e) = init.validate() {
        return Err(e);
    }
    if let Err(e) = check_endpoints(desc) {
        return Err(e);
    }
    if desc.data_placements.len() != desc.config.p as usize {
        let mut s = prefixed(
            "bootstrap descriptor must contain exactly ",
            to_decimal(desc.config.p as u128).as_str(),
        );
        s.append(" data placements");
        return Err(Error::Config(s));
    }
    check_placements(desc, &nodes)
}

// -- the registration ------------------------------------------------------------

/// Whether a descriptor lists a node at some endpoints.
pub open spec fn descriptor_lists(
    directory: Seq<DirEntryView>,
    node: NodeId,
    control_addr: Seq<char>,
    bulk_addr: Seq<char>,
) -> bool {
    directory.contains(DirEntryView { node_id: node, control_addr, bulk_addr })
}

fn lists(desc: &BootstrapDescriptor, cfg: &NodeConfig) -> (yes: bool)
    ensures
        yes == descriptor_lists(
            desc@.directory,
            cfg@.node_id,
            cfg@.control_addr,
            cfg@.bulk_addr,
        ),
{
    let ghost want = DirEntryView {
        node_id: cfg@.node_id,
        control_addr: cfg@.control_addr,
        bulk_addr: cfg@.bulk_addr,
    };
    let mut i: usize = 0;
    while i < desc.directory.len()
        invariant
            i <= desc.directory@.len(),
            want == (DirEntryView {
                node_id: cfg@.node_id,
                control_addr: cfg@.control_addr,
                bulk_addr: cfg@.bulk_addr,
            }),
            forall|k: int| 0 <= k < i ==> #[trigger] desc@.directory[k] != want,
        decreases desc.directory@.len() - i,
    {
        let entry = &desc.directory[i];
        assert(desc@.directory[i as int] == entry@);
        if entry.node_id == cfg.node_id && entry.control_addr == cfg.control_addr
            && entry.bulk_addr == cfg.bulk_addr {
            assert(entry@ == want);
            return true;
        }
        i += 1;
    }
    false
}

/// How a process comes by its registration.
#[derive(Debug, Clone, Copy, PartialEq, Eq, Structural)]
pub enum RegistrationStep {
    /// It restarts at the endpoints it is bound to: a live registration is
    /// preferred, but the binding will do.
    Confirm,
    /// It starts at genesis, where its registration is known in advance.
    Genesis,
    /// Only the live directory can tell.
    Require,
}

/// The registration of a genesis node: the first incarnation.
pub open spec fn genesis_binding(cfg: NodeConfigView) -> BindingView {
    BindingView {
        cluster_id: cfg.cluster_id,
        node_id: cfg.node_id,
        control_addr: cfg.control_addr,
        bulk_addr: cfg.bulk_addr,
        directory_incarnation: 1,
    }
}

/// How a process comes by its registration, given what it was bound to.
pub open spec fn registration_step(
    cfg: NodeConfigView,
    desc: DescriptorView,
    previous: Option<BindingView>,
) -> RegistrationStep {
    match previous {
        Some(b) => if b.control_addr == cfg.control_addr && b.bulk_addr == cfg.bulk_addr {
            RegistrationStep::Confirm
        } else {
            RegistrationStep::Require
        },
        None => if descriptor_lists(
            desc.directory,
            cfg.node_id,
            cfg.control_addr,
            cfg.bulk_addr,
        ) {
            RegistrationStep::Genesis
        } else {
            RegistrationStep::Require
        },
    }
}

/// Decide how a process comes by its registration. At genesis the binding is
/// recorded at once.
pub fn begin_registration(cfg: &NodeConfig, desc: &BootstrapDescriptor, storage: &mut Storage) -> (step:
    RegistrationStep)
    ensures
        step == registration_step(cfg@, desc@, old(storage)@.binding),
        step is Genesis ==> final(storage)@ == (StorageView {
            binding: Some(genesis_binding(cfg@)),
            ..old(storage)@
        }),
        !(step is Genesis) ==> *final(storage) == *old(storage),
{
    let restart: bool = match &storage.binding {
        Some(b) => {
            if !b.matches_endpoints(&cfg.control_addr, &cfg.bulk_addr) {
                return RegistrationStep::Require;
            }
            true
        },
        None => false,
    };
    if restart {
        return RegistrationStep::Confirm;
    }
    if !lists(desc, cfg) {
        return RegistrationStep::Require;
    }
    storage.set_binding(
        RegistrationBinding {
            cluster_id: cfg.cluster_id,
            node_id: cfg.node_id,
            control_addr: cfg.control_addr.clone(),
            bulk_addr: cfg.bulk_addr.clone(),
            directory_incarnation: 1,
        },
    );
    RegistrationStep::Genesis
}

/// The registration that a directory gives a node, or why it cannot run.
pub open spec fn authoritative_binding(cfg: NodeConfigView, directory: Seq<NodeEntryView>) -> Result<
    BindingView,
    ErrorView,
> {
    match directory_entry(directory, cfg.node_id) {
        None => Err(
            ErrorView::Config(
                "node "@ + decimal(cfg.node_id as nat)
                    + " is not present in the authoritative directory; run dal join first"@,
            ),
        ),
        Some(e) => if e.control_addr != cfg.control_addr || e.bulk_addr != cfg.bulk_addr {
            Err(
                ErrorView::Config(
                    "node "@ + decimal(cfg.node_id as nat)
                        + " config endpoints do not match its authoritative registration"@,
                ),
            )
        } else {
            Ok(
                BindingView {
                    cluster_id: cfg.cluster_id,
                    node_id: cfg.node_id,
                    control_addr: e.control_addr,
                    bulk_addr: e.bulk_addr,
                    directory_incarnation: e.incarnation,
                },
            )
        },
    }
}

/// Bind the process to the registration that a directory gives its node.
pub fn bind_authoritative_registration(
    cfg: &NodeConfig,
    storage: &mut Storage,
    directory: &Vec<NodeDirectoryEntry>,
) -> (r: Result<RegistrationBinding, Error>)
    ensures
        match (r, authoritative_binding(cfg@, entry_views(directory@))) {
            (Ok(b), Ok(v)) => b@ == v && final(storage)@ == (StorageView {
                binding: Some(v),
                ..old(storage)@
            }),
            (Err(e), Err(f)) => e@ == f && *final(storage) == *old(storage),
            _ => false,
        },
{
    match find_node(directory, cfg.node_id) {
        None => {
            let mut s = prefixed("node ", to_decimal(cfg.node_id as u128).as_str());
            s.append(" is not present in the authoritative directory; run dal join first");
            Err(Error::Config(s))
        },
        Some(i) => {
            let entry = &directory[i];
            assert(entry_views(directory@)[i as int] == entry@);
            if entry.control_addr != cfg.control_addr || entry.bulk_addr != cfg.bulk_addr {
                let mut s = prefixed("node ", to_decimal(cfg.node_id as u128).as_str());
                s.append(" config endpoints do not match its authoritative registration");
                return Err(Error::Config(s));
            }
            let binding = RegistrationBinding {
                cluster_id: cfg.cluster_id,
                node_id: cfg.node_id,
                control_addr: entry.control_addr.clone(),
                bulk_addr: entry.bulk_addr.clone(),
                directory_incarnation: entry.incarnation,
            };
            storage.set_binding(binding.duplicate());
            Ok(binding)
        },
    }
}

/// The registration of a process after the directory was asked for. A restart
/// keeps its binding while no directory can be had, and while a genesis
/// registration has not been applied yet.
pub open spec fn resolved_binding(
    cfg: NodeConfigView,
    desc: DescriptorView,
    previous: Option<BindingView>,
    fetched: Result<Seq<NodeEntryView>, ErrorView>,
) -> Result<BindingView, ErrorView> {
    match (registration_step(cfg, desc, previous), fetched) {
        (RegistrationStep::Genesis, _) => Ok(genesis_binding(cfg)),
        (RegistrationStep::Confirm, Err(_)) => Ok(previous->0),
        (RegistrationStep::Confirm, Ok(directory)) => if directory_entry(directory, cfg.node_id)
            is None && previous->0.directory_incarnation == 1 && descriptor_lists(
            desc.directory,
            cfg.node_id,
            cfg.control_addr,
            cfg.bulk_addr,
        ) {
            Ok(previous->0)
        } else {
            authoritative_binding(cfg, directory)
        },
        (RegistrationStep::Require, Err(e)) => Err(e),
        (RegistrationStep::Require, Ok(directory)) => authoritative_binding(cfg, directory),
    }
}

/// What was fetched, by its content.
pub open spec fn fetched_view(fetched: Result<Vec<NodeDirectoryEntry>, Error>) -> Result<
    Seq<NodeEntryView>,
    ErrorView,
> {
    match fetched {
        Ok(d) => Ok(entry_views(d@)),
        Err(e) => Err(e@),
    }
}

/// Resolve the registration that the process runs under, once the directory was
/// asked for; a new binding is recorded.
pub fn resolve_registration_binding(
    cfg: &NodeConfig,
    desc: &BootstrapDescriptor,
    storage: &mut Storage,
    fetched: Result<Vec<NodeDirectoryEntry>, Error>,
) -> (r: Result<RegistrationBinding, Error>)
    ensures
        match (r, resolved_binding(cfg@, desc@, old(storage)@.binding, fetched_view(fetched))) {
            (Ok(b), Ok(v)) => b@ == v && final(storage)@ == (StorageView {
                binding: Some(v),
                ..old(storage)@
            }),
            (Err(e), Err(f)) => e@ == f && *final(storage) == *old(storage),
            _ => false,
        },
{
    let ghost before = storage@;
    let step = begin_registration(cfg, desc, storage);
    let directory = match step {
        RegistrationStep::Genesis => {
            return Ok(
                RegistrationBinding {
                    cluster_id: cfg.cluster_id,
                    node_id: cfg.node_id,
                    control_addr: cfg.control_addr.clone(),
                    bulk_addr: cfg.bulk_addr.clone(),
                    directory_incarnation: 1,
                },
            );
        },
        RegistrationStep::Require => match fetched {
            Ok(d) => d,
            Err(e) => {
                return Err(e);
            },
        },
        RegistrationStep::Confirm => {
            let bound: Option<RegistrationBinding> = match &storage.binding {
                Some(b) => Some(b.duplicate()),
                None => None,
            };
            match (fetched, bound) {
                (Err(_), Some(b)) => {
                    assert(storage@ =~= (StorageView { binding: Some(b@), ..before }));
                    return Ok(b);
                },
                (Err(e), None) => {
                    return Err(e);
                },
                (Ok(d), bound) => {
                    if let (Some(b), None) = (bound, find_node(&d, cfg.node_id)) {
                        if b.directory_incarnation == 1 && lists(desc, cfg) {
                            assert(storage@ =~= (StorageView { binding: Some(b@), ..before }));
                            return Ok(b);
                        }
                    }
                    d
                },
            }
        },
    };
    bind_authoritative_registration(cfg, storage, &directory)
}

/// Where to ask for the directory: the seeds, then the descriptor's nodes.
pub fn registration_seeds(cfg: &NodeConfig, desc: &BootstrapDescriptor) -> (out: Vec<String>)
    ensures
        texts(out@) == cfg@.seeds + desc@.directory.map_values(|d: DirEntryView| d.control_addr),
{
    let ghost extra = desc@.directory.map_values(|d: DirEntryView| d.control_addr);
    let mut out = copy_texts(&cfg.seeds);
    let mut i: usize = 0;
    assert(texts(out@) =~= cfg@.seeds + extra.take(0));
    while i < desc.directory.len()
        invariant
            i <= desc.directory@.len(),
            extra == desc@.directory.map_values(|d: DirEntryView| d.control_addr),
            texts(out@) == cfg@.seeds + extra.take(i as int),
        decreases desc.directory@.len() - i,
    {
        let ghost before = texts(out@);
        out.push(desc.directory[i].control_addr.clone());
        proof {
            assert(texts(out@) =~= before.push(extra[i as int]));
            assert(texts(out@) =~= cfg@.seeds + extra.take(i + 1));
        }
        i += 1;
    }
    assert(extra.take(i as int) =~= extra);
    out
}

// -- starting --------------------------------------------------------------------

/// The groups that a node starts.
#[derive(Debug, Clone, PartialEq, Eq)]
pub struct StartPlan {
    /// Whether the meta group starts from the descriptor.
    pub meta_voter: bool,
    /// The partitions that start from the descriptor, with their voters.
    pub hosted: Vec<(u16, Vec<NodeId>)>,
    /// The partitions held from before, as far as they are not running yet.
    pub resumed: Vec<u16>,
    /// Whether the meta group is held from before, without being a genesis one.
    pub resume_meta: bool,
}

/// The content of a start plan.
#[verifier::ext_equal]
pub struct StartView {
    pub meta_voter: bool,
    pub hosted: Seq<(u16, Seq<NodeId>)>,
    pub resumed: Seq<u16>,
    pub resume_meta: bool,
}

impl View for StartPlan {
    type V = StartView;

    open spec fn view(&self) -> StartView {
        StartView {
            meta_voter: self.meta_voter,
            hosted: seed_views(self.hosted@),
            resumed: self.resumed@,
            resume_meta: self.resume_meta,
        }
    }
}

/// Whether a group was given up for good.
pub open spec fn given_up(s: StorageView, group: GroupId) -> bool {
    s.serving_state(group) == Some(ServingState::NonServing)
}

/// The initial placements that a node votes in and has not given up.
pub open spec fn hosted_placements(
    s: StorageView,
    placements: Seq<(u16, Seq<NodeId>)>,
    node: NodeId,
) -> Seq<(u16, Seq<NodeId>)>
    decreases placements.len(),
{
    if placements.len() == 0 {
        Seq::empty()
    } else {
        let head = hosted_placements(s, placements.drop_last(), node);
        let last = placements.last();
        if last.1.contains(node) && !given_up(s, GroupId::Data(last.0)) {
            head.push(last)
        } else {
            head
        }
    }
}

/// The first partitions that a node holds and has not given up.
pub open spec fn held_partitions(s: StorageView, n: nat) -> Seq<u16>
    decreases n,
{
    if n == 0 {
        Seq::empty()
    } else {
        let head = held_partitions(s, (n - 1) as nat);
        let p = (n - 1) as u16;
        if !given_up(s, GroupId::Data(p)) && s.groups.contains(GroupId::Data(p)) {
            head.push(p)
        } else {
            head
        }
    }
}

/// The groups that a node starts, given its durable records.
pub open spec fn start_plan(s: StorageView, node: NodeId, desc: DescriptorView) -> StartView {
    let genesis = desc.meta_voters.contains(node);
    let meta_open = !given_up(s, GroupId::Meta);
    StartView {
        meta_voter: genesis && meta_open,
        hosted: hosted_placements(s, desc.data_placements, node),
        resumed: held_partitions(s, desc.config.p as nat),
        resume_meta: !genesis && meta_open && s.groups.contains(GroupId::Meta),
    }
}

fn was_given_up(storage: &Storage, group: GroupId) -> (yes: bool)
    ensures
        yes == given_up(storage@, group),
{
    match storage.serving_state(group) {
        Some(ServingState::NonServing) => true,
        _ => false,
    }
}

/// Decide which groups a node starts. One that was given up stays gone.
pub fn plan_start(storage: &Storage, node: NodeId, desc: &BootstrapDescriptor) -> (plan: StartPlan)
    ensures
        plan@ == start_plan(storage@, node, desc@),
{
    let genesis: bool = holds(&desc.meta_voters, node);
    let meta_open: bool = !was_given_up(storage, GroupId::Meta);
    let ghost views = desc@.data_placements;
    let mut hosted: Vec<(u16, Vec<NodeId>)> = Vec::new();
    let mut i: usize = 0;
    proof {
        assert(views.take(0) =~= Seq::<(u16, Seq<NodeId>)>::empty());
        assert(seed_views(hosted@) =~= hosted_placements(storage@, views.take(0), node));
    }
    while i < desc.data_placements.len()
        invariant
            i <= desc.data_placements@.len(),
            views == seed_views(desc.data_placements@),
            seed_views(hosted@) == hosted_placements(storage@, views.take(i as int), node),
        decreases desc.data_placements@.len() - i,
    {
        let partition: u16 = desc.data_placements[i].0;
        let voters = &desc.data_placements[i].1;
        proof {
            assert(views[i as int] == (partition, voters@));
            assert(views.take(i + 1).drop_last() =~= views.take(i as int));
            assert(views.take(i + 1).last() == views[i as int]);
        }
        if holds(voters, node) && !was_given_up(storage, GroupId::Data(partition)) {
            let ghost before = seed_views(hosted@);
            hosted.push((partition, voters.clone()));
            assert(seed_views(hosted@) =~= before.push(views[i as int]));
        }
        i += 1;
    }
    assert(views.take(i as int) =~= views);
    let mut resumed: Vec<u16> = Vec::new();
    let mut p: u16 = 0;
    while p < desc.config.p
        invariant
            p <= desc.config.p,
            resumed@ == held_partitions(storage@, p as nat),
        decreases desc.config.p - p,
    {
        if !was_given_up(storage, GroupId::Data(p)) && storage.group_exists(GroupId::Data(p)) {
            resumed.push(p);
        }
        p += 1;
    }
    let resume_meta: bool = !genesis && meta_open && storage.group_exists(GroupId::Meta);
    StartPlan { meta_voter: genesis && meta_open, hosted, resumed, resume_meta }
}

/// The markers that let the groups of a plan start.
pub open spec fn start_markers(cluster_id: ClusterId, desc: DescriptorView, plan: StartView) -> Seq<
    BootstrapGroupView,
> {
    let meta = if plan.meta_voter {
        seq![
            BootstrapGroupView { cluster_id, group: GroupId::Meta, members: desc.meta_voters },
        ]
    } else {
        Seq::empty()
    };
    meta + plan.hosted.map_values(
        |h: (u16, Seq<NodeId>)|
            BootstrapGroupView { cluster_id, group: GroupId::Data(h.0), members: h.1 },
    )
}

/// The records after markers were recorded one after the other, up to the first
/// that conflicts with one from before.
pub open spec fn mark_all(s: StorageView, markers: Seq<BootstrapGroupView>) -> (
    StorageView,
    Option<ErrorView>,
)
    decreases markers.len(),
{
    if markers.len() == 0 {
        (s, None)
    } else {
        let (t, failed) = mark_all(s, markers.drop_last());
        match failed {
            Some(e) => (t, Some(e)),
            None => match marked(t, markers.last()) {
                Ok((_, u)) => (u, None),
                Err(e) => (t, Some(e)),
            },
        }
    }
}

proof fn lemma_marks_stop(s: StorageView, markers: Seq<BootstrapGroupView>, n: int)
    requires
        0 <= n <= markers.len(),
        mark_all(s, markers.take(n)).1 is Some,
    ensures
        mark_all(s, markers) == mark_all(s, markers.take(n)),
    decreases markers.len() - n,
{
    if n == markers.len() {
        assert(markers.take(n) =~= markers);
    } else {
        assert(markers.take(n + 1).drop_last() =~= markers.take(n));
        lemma_marks_stop(s, markers, n + 1);
    }
}

/// Record the markers that let the groups of a plan start; a conflict with an
/// earlier marker ends the start.
pub fn record_start_markers(
    storage: &mut Storage,
    cluster_id: ClusterId,
    desc: &BootstrapDescriptor,
    plan: &StartPlan,
) -> (r: Result<(), Error>)
    ensures
        ({
            let (s, failed) = mark_all(
                old(storage)@,
                start_markers(cluster_id, desc@, plan@),
            );
            &&& final(storage)@ == s
            &&& match r {
                Ok(_) => failed is None,
                Err(e) => failed == Some(e@),
            }
        }),
{
    let ghost before = storage@;
    let ghost markers = start_markers(cluster_id, desc@, plan@);
    let ghost mut done: int = 0;
    assert(markers.take(0) =~= Seq::<BootstrapGroupView>::empty());
    assert(mark_all(before, markers.take(0)) == (before, None::<ErrorView>));
    if plan.meta_voter {
        let record = BootstrapGroup {
            cluster_id,
            group: GroupId::Meta,
            members: desc.meta_voters.clone(),
        };
        proof {
            assert(markers[0] == record@);
            assert(markers.take(1).drop_last() =~= markers.take(0));
            assert(markers.take(1).last() == markers[0]);
        }
        let marked_meta = ensure_bootstrap_group(storage, &record);
        if let Err(e) = marked_meta {
            proof {
                lemma_marks_stop(before, markers, 1);
            }
            return Err(e);
        }
        proof {
            done = 1;
        }
    }
    let mut i: usize = 0;
    while i < plan.hosted.len()
        invariant
            i <= plan.hosted@.len(),
            before == old(storage)@,
            markers == start_markers(cluster_id, desc@, plan@),
            done == (if plan.meta_voter {
                1int
            } else {
                0int
            }),
            markers.len() == done + plan.hosted@.len(),
            mark_all(before, markers.take(done + i)) == (storage@, None::<ErrorView>),
        decreases plan.hosted@.len() - i,
    {
        let record = BootstrapGroup {
            cluster_id,
            group: GroupId::Data(plan.hosted[i].0),
            members: plan.hosted[i].1.clone(),
        };
        proof {
            assert(plan@.hosted[i as int] == (plan.hosted@[i as int].0, plan.hosted@[i as int].1@));
            assert(markers[done + i] == record@);
            assert(markers.take(done + i + 1).drop_last() =~= markers.take(done + i));
            assert(markers.take(done + i + 1).last() == markers[done + i]);
        }
        let marked_data = ensure_bootstrap_group(storage, &record);
        if let Err(e) = marked_data {
            proof {
                lemma_marks_stop(before, markers, done + i + 1);
            }
            return Err(e);
        }
        i += 1;
    }
    assert(markers.take(done + i) =~= markers);
    Ok(())
}

/// The groups that a plan starts, in the order in which they start.
pub open spec fn started_groups(plan: StartView) -> Seq<GroupId> {
    let first = if plan.meta_voter {
        seq![GroupId::Meta]
    } else {
        Seq::empty()
    };
    let last = if plan.resume_meta {
        seq![GroupId::Meta]
    } else {
        Seq::empty()
    };
    first + plan.hosted.map_values(|h: (u16, Seq<NodeId>)| GroupId::Data(h.0))
        + plan.resumed.map_values(|p: u16| GroupId::Data(p)) + last
}

/// Why the first of some groups that may not start may not, if there is one.
pub open spec fn first_refusal(s: StorageView, groups: Seq<GroupId>) -> Option<ErrorView>
    decreases groups.len(),
{
    if groups.len() == 0 {
        None
    } else {
        match first_refusal(s, groups.drop_last()) {
            Some(e) => Some(e),
            None => s.start_defect(groups.last()),
        }
    }
}

proof fn lemma_refusal_stays(s: StorageView, groups: Seq<GroupId>, n: int)
    requires
        0 <= n <= groups.len(),
        first_refusal(s, groups.take(n)) is Some,
    ensures
        first_refusal(s, groups) == first_refusal(s, groups.take(n)),
    decreases groups.len() - n,
{
    if n == groups.len() {
        assert(groups.take(n) =~= groups);
    } else {
        assert(groups.take(n + 1).drop_last() =~= groups.take(n));
        lemma_refusal_stays(s, groups, n + 1);
    }
}

proof fn lemma_no_refusal(s: StorageView, groups: Seq<GroupId>, i: int)
    requires
        0 <= i < groups.len(),
        first_refusal(s, groups) is None,
    ensures
        s.start_defect(groups[i]) is None,
    decreases groups.len(),
{
    if i < groups.len() - 1 {
        lemma_no_refusal(s, groups.drop_last(), i);
    }
}

fn groups_of(plan: &StartPlan) -> (groups: Vec<GroupId>)
    ensures
        groups@ == started_groups(plan@),
{
    let mut groups: Vec<GroupId> = Vec::new();
    if plan.meta_voter {
        groups.push(GroupId::Meta);
    }
    let ghost first = groups@;
    let ghost hosted = plan@.hosted.map_values(|h: (u16, Seq<NodeId>)| GroupId::Data(h.0));
    let ghost resumed = plan@.resumed.map_values(|p: u16| GroupId::Data(p));
    assert(first + hosted.take(0) =~= first);
    let mut i: usize = 0;
    while i < plan.hosted.len()
        invariant
            i <= plan.hosted@.len(),
            hosted == plan@.hosted.map_values(|h: (u16, Seq<NodeId>)| GroupId::Data(h.0)),
            groups@ == first + hosted.take(i as int),
        decreases plan.hosted@.len() - i,
    {
        groups.push(GroupId::Data(plan.hosted[i].0));
        assert(groups@ =~= first + hosted.take(i + 1));
        i += 1;
    }
    assert(hosted.take(i as int) =~= hosted);
    assert(first + hosted + resumed.take(0) =~= first + hosted);
    let mut k: usize = 0;
    while k < plan.resumed.len()
        invariant
            k <= plan.resumed@.len(),
            resumed == plan@.resumed.map_values(|p: u16| GroupId::Data(p)),
            groups@ == first + hosted + resumed.take(k as int),
        decreases plan.resumed@.len() - k,
    {
        groups.push(GroupId::Data(plan.resumed[k]));
        assert(groups@ =~= first + hosted + resumed.take(k + 1));
        k += 1;
    }
    assert(resumed.take(k as int) =~= resumed);
    if plan.resume_meta {
        groups.push(GroupId::Meta);
    }
    assert(groups@ =~= started_groups(plan@));
    groups
}

/// Hold every group of a plan to the records that let it start.
pub fn authorize_start(storage: &Storage, plan: &StartPlan) -> (r: Result<(), Error>)
    ensures
        match r {
            Ok(_) => first_refusal(storage@, started_groups(plan@)) is None,
            Err(e) => first_refusal(storage@, started_groups(plan@)) == Some(e@),
        },
{
    let groups = groups_of(plan);
    let mut i: usize = 0;
    assert(groups@.take(0) =~= Seq::<GroupId>::empty());
    while i < groups.len()
        invariant
            i <= groups@.len(),
            groups@ == started_groups(plan@),
            first_refusal(storage@, groups@.take(i as int)) is None,
        decreases groups@.len() - i,
    {
        proof {
            assert(groups@.take(i + 1).drop_last() =~= groups@.take(i as int));
        }
        if let Err(e) = storage.authorize_group_start(groups[i]) {
            proof {
                lemma_refusal_stays(storage@, groups@, i + 1);
            }
            return Err(e);
        }
        i += 1;
    }
    assert(groups@.take(i as int) =~= groups@);
    Ok(())
}

/// What a node starts with: its registration and its groups.
pub struct NodeStart {
    pub registration: RegistrationBinding,
    pub plan: StartPlan,
}

/// How the start of a node ends: its registration and its groups, or why it does
/// not start; with the records that it leaves.
pub open spec fn start_outcome(
    cfg: NodeConfigView,
    desc: DescriptorView,
    s: StorageView,
    fetched: Result<Seq<NodeEntryView>, ErrorView>,
) -> (Result<(BindingView, StartView), ErrorView>, StorageView) {
    match descriptor_defect(cfg, desc) {
        Some(e) => (Err(e), s),
        None => match resolved_binding(cfg, desc, s.binding, fetched) {
            Err(e) => (Err(e), s),
            Ok(binding) => {
                let bound = StorageView { binding: Some(binding), ..s };
                let plan = start_plan(bound, cfg.node_id, desc);
                let (t, failed) = mark_all(bound, start_markers(cfg.cluster_id, desc, plan));
                match failed {
                    Some(e) => (Err(e), t),
                    None => match first_refusal(t, started_groups(plan)) {
                        Some(e) => (Err(e), t),
                        None => (Ok((binding, plan)), t),
                    },
                }
            },
        },
    }
}

/// Start a node: check its configuration, bind it to its registration, decide
/// which groups it starts, record the markers that let the initial ones, and hold
/// every group to its records.
pub fn start(
    cfg: &NodeConfig,
    desc: &BootstrapDescriptor,
    storage: &mut Storage,
    fetched: Result<Vec<NodeDirectoryEntry>, Error>,
) -> (r: Result<NodeStart, Error>)
    ensures
        ({
            let (want, s) = start_outcome(cfg@, desc@, old(storage)@, fetched_view(fetched));
            &&& final(storage)@ == s
            &&& match (r, want) {
                (Ok(a), Ok((binding, plan))) => a.registration@ == binding && a.plan@ == plan,
                (Err(e), Err(f)) => e@ == f,
                _ => false,
            }
        }),
{
    if let Err(e) = validate_node_descriptor(cfg, desc) {
        return Err(e);
    }
    let registration = match resolve_registration_binding(cfg, desc, storage, fetched) {
        Ok(b) => b,
        Err(e) => {
            return Err(e);
        },
    };
    let plan = plan_start(storage, cfg.node_id, desc);
    if let Err(e) = record_start_markers(storage, cfg.cluster_id, desc, &plan) {
        return Err(e);
    }
    match authorize_start(storage, &plan) {
        Ok(_) => Ok(NodeStart { registration, plan }),
        Err(e) => Err(e),
    }
}

/// A group's state comes to run only through a bootstrap marker or a learner
/// admission: every group that a node starts has one of the two, and none was
/// given up.
pub proof fn law_started_groups_are_authorized(
    cfg: NodeConfigView,
    desc: DescriptorView,
    s: StorageView,
    fetched: Result<Seq<NodeEntryView>, ErrorView>,
    group: GroupId,
)
    requires
        start_outcome(cfg, desc, s, fetched).0 matches Ok((_, plan)) && started_groups(
            plan,
        ).contains(group),
    ensures
        ({
            let t = start_outcome(cfg, desc, s, fetched).1;
            &&& t.bootstrap_group(group) is Some || t.learner_admission(group) is Some
            &&& !given_up(t, group)
        }),
{
    let (r, t) = start_outcome(cfg, desc, s, fetched);
    let groups = started_groups(r->Ok_0.1);
    let i = groups.index_of(group);
    lemma_no_refusal(t, groups, i);
}

/// The time between two heartbeats in nanoseconds: a third of the silence that
/// makes a node suspect, but no less than fifty milliseconds.
pub fn heartbeat_interval_nanos(suspect: Duration) -> (n: u128)
    ensures
        n == (if suspect@ / 3 >= 50_000_000 {
            suspect@ / 3
        } else {
            50_000_000
        }),
{
    let third: u128 = suspect.as_nanos() / 3;
    if third >= 50_000_000 {
        third
    } else {
        50_000_000
    }
}

// -- bootstrap -------------------------------------------------------------------

/// A process acts only while it may act under its identity.
pub fn require_identity_open(gate: &ProcessIdentityGate) -> (r: Result<(), Error>)
    ensures
        match r {
            Ok(_) => gate.spec_open(),
            Err(e) => !gate.spec_open() && e@ == ErrorView::Raft(
                "local process identity is fenced"@,
            ),
        },
{
    if gate.is_open() {
        Ok(())
    } else {
        Err(Error::Raft("local process identity is fenced".to_owned()))
    }
}

/// What bootstrap does next while it waits for a group's genesis.
#[derive(Debug, Clone, Copy, PartialEq, Eq, Structural)]
pub enum GenesisStep {
    /// The wait is over.
    Done,
    /// Submit the seed commands, then look again.
    Seed,
    /// Look again after a pause.
    Wait,
}

/// Decide what bootstrap does next about the meta group. `placed` tells of each
/// partition whether its placement has reached this node. Only the leader seeds;
/// the others wait for what it seeds.
pub fn meta_genesis_step(gate: &ProcessIdentityGate, placed: &Vec<bool>, leads: bool) -> (r: Result<
    GenesisStep,
    Error,
>)
    ensures
        ({
            let seeded = forall|i: int| 0 <= i < placed@.len() ==> placed@[i];
            match r {
                Ok(GenesisStep::Done) => seeded,
                Ok(GenesisStep::Seed) => !seeded && gate.spec_open() && leads,
                Ok(GenesisStep::Wait) => !seeded && gate.spec_open() && !leads,
                Err(e) => !seeded && !gate.spec_open() && e@ == ErrorView::Raft(
                    "local process identity is fenced"@,
                ),
            }
        }),
{
    if meta_seeded_locally(placed) {
        return Ok(GenesisStep::Done);
    }
    match require_identity_open(gate) {
        Err(e) => Err(e),
        Ok(_) => if leads {
            Ok(GenesisStep::Seed)
        } else {
            Ok(GenesisStep::Wait)
        },
    }
}

/// Decide whether the wait for the meta group goes on.
pub fn meta_genesis_pause(node: NodeId, expired: bool) -> (r: Result<(), Error>)
    ensures
        match r {
            Ok(_) => !expired,
            Err(e) => expired && e@ == meta_wait_error(node),
        },
{
    if expired {
        Err(meta_seed_timeout(node))
    } else {
        Ok(())
    }
}

/// Decide what bootstrap does next about a data group that this node is to
/// initialize: it waits until the group's placement is the descriptor's.
pub fn data_genesis_step(
    gate: &ProcessIdentityGate,
    node: NodeId,
    partition: u16,
    seeded: Result<bool, Error>,
    expired: bool,
) -> (r: Result<GenesisStep, Error>)
    ensures
        match seeded {
            Err(e) => r == Err::<GenesisStep, Error>(e),
            Ok(true) => r == Ok::<GenesisStep, Error>(GenesisStep::Done),
            Ok(false) => if !gate.spec_open() {
                r matches Err(e) && e@ == ErrorView::Raft("local process identity is fenced"@)
            } else if expired {
                r matches Err(e) && e@ == placement_wait_error(node, partition)
            } else {
                r == Ok::<GenesisStep, Error>(GenesisStep::Wait)
            },
        },
{
    match seeded {
        Err(e) => Err(e),
        Ok(true) => Ok(GenesisStep::Done),
        Ok(false) => match require_identity_open(gate) {
            Err(e) => Err(e),
            Ok(_) => if expired {
                Err(placement_seed_timeout(node, partition))
            } else {
                Ok(GenesisStep::Wait)
            },
        },
    }
}

/// The placement that a peer's answer to a placement query gives: none where the
/// frame is another cluster's or no answer, where it could not be read, or where
/// the peer has no confirmed placement.
pub fn placement_answer(
    cluster_id: ClusterId,
    reply: &Envelope,
    body: Option<Option<Placement>>,
) -> (r: Option<Placement>)
    ensures
        r == (if reply.cluster_id == cluster_id && reply.msg_type is PlacementQuery {
            match body {
                Some(p) => p,
                None => None,
            }
        } else {
            None
        }),
{
    if reply.cluster_id != cluster_id || reply.msg_type != MsgType::PlacementQuery {
        return None;
    }
    match body {
        Some(p) => p,
        None => None,
    }
}

/// Whether this node initializes a group: only the designated voter does, and
/// only once.
pub fn should_initialize(node: NodeId, voters: &Vec<NodeId>, initialized: bool) -> (yes: bool)
    ensures
        yes == (!initialized && is_lowest(voters@, node)),
{
    if initialized {
        return false;
    }
    match designated(voters) {
        Some(d) => {
            proof {
                if is_lowest(voters@, node) {
                    let i = voters@.index_of(node);
                    let j = voters@.index_of(d);
                    assert(voters@[i] == node && voters@[j] == d);
                }
            }
            d == node
        },
        None => false,
    }
}

/// Whether genesis is seeded: every partition of the descriptor has a placement,
/// wherever that has moved since.
pub fn meta_seeded_locally(placed: &Vec<bool>) -> (yes: bool)
    ensures
        yes == (forall|i: int| 0 <= i < placed@.len() ==> placed@[i]),
{
    let mut i: usize = 0;
    while i < placed.len()
        invariant
            i <= placed@.len(),
            forall|k: int| 0 <= k < i ==> placed@[k],
        decreases placed@.len() - i,
    {
        if !placed[i] {
            return false;
        }
        i += 1;
    }
    true
}

/// That a group is being moved before it was ever initialized.
pub open spec fn moved_early(partition: u16) -> ErrorView {
    ErrorView::Raft(
        "data group "@ + decimal(partition as nat) + " has a move before genesis initialization"@,
    )
}

/// Whether a partition's placement is seeded as the descriptor says. One that is
/// being moved before its first initialization cannot be reconciled.
pub open spec fn seeded(
    partition: u16,
    voters: Seq<NodeId>,
    placement: Option<PlacementView>,
) -> Result<bool, ErrorView> {
    match placement {
        None => Ok(false),
        Some(p) => if p.move_plan is Some {
            Err(moved_early(partition))
        } else {
            Ok(p.voters == voters)
        },
    }
}

/// Decide from a local placement whether a partition is seeded.
pub fn placement_seeded(partition: u16, voters: &Vec<NodeId>, placement: Option<&Placement>) -> (r:
    Result<bool, Error>)
    ensures
        match (r, seeded(partition, voters@, placement_view(placement))) {
            (Ok(a), Ok(b)) => a == b,
            (Err(e), Err(f)) => e@ == f,
            _ => false,
        },
{
    match placement {
        None => Ok(false),
        Some(p) => match &p.move_plan {
            Some(_) => {
                let mut s = prefixed("data group ", to_decimal(partition as u128).as_str());
                s.append(" has a move before genesis initialization");
                Err(Error::Raft(s))
            },
            None => Ok(same_list(&p.voters, voters)),
        },
    }
}

/// What a peer's answers say of a partition's placement, if anything: `ready` is
/// its answer to the bootstrap question, `placement` what it knows of the group.
pub fn peer_seeded(
    cluster_id: ClusterId,
    partition: u16,
    reply: &Envelope,
    ready: Option<bool>,
    placement: Option<&Placement>,
) -> (r: Result<bool, Error>)
    ensures
        ({
            let answers = reply.cluster_id == cluster_id && reply.msg_type is BootstrapStatus;
            match r {
                Ok(yes) => yes == (answers && ready == Some(true)) && (answers && ready != Some(
                    true,
                ) ==> match placement_view(placement) {
                    Some(p) => p.move_plan is None,
                    None => true,
                }),
                Err(e) => answers && ready != Some(true) && match placement_view(placement) {
                    Some(p) => p.move_plan is Some,
                    None => false,
                } && e@ == moved_early(partition),
            }
        }),
{
    if reply.cluster_id != cluster_id || reply.msg_type != MsgType::BootstrapStatus {
        return Ok(false);
    }
    if let Some(true) = ready {
        return Ok(true);
    }
    if let Some(p) = placement {
        if let Some(_) = &p.move_plan {
            let mut s = prefixed("data group ", to_decimal(partition as u128).as_str());
            s.append(" has a move before genesis initialization");
            return Err(Error::Raft(s));
        }
    }
    Ok(false)
}

/// How a wait for the meta group's genesis fails.
pub open spec fn meta_wait_error(node: NodeId) -> ErrorView {
    ErrorView::Raft(
        "node "@ + decimal(node as nat) + " timed out waiting for meta genesis to seed"@,
    )
}

/// How a wait for a partition's placement fails.
pub open spec fn placement_wait_error(node: NodeId, partition: u16) -> ErrorView {
    ErrorView::Raft(
        "node "@ + decimal(node as nat) + " timed out waiting for placement "@ + decimal(
            partition as nat,
        ) + " to seed"@,
    )
}

/// That genesis did not get seeded in time.
pub fn meta_seed_timeout(node: NodeId) -> (e: Error)
    ensures
        e@ == meta_wait_error(node),
{
    let mut s = prefixed("node ", to_decimal(node as u128).as_str());
    s.append(" timed out waiting for meta genesis to seed");
    Error::Raft(s)
}

/// That a partition's placement did not get seeded in time.
pub fn placement_seed_timeout(node: NodeId, partition: u16) -> (e: Error)
    ensures
        e@ == placement_wait_error(node, partition),
{
    let mut s = prefixed("node ", to_decimal(node as u128).as_str());
    s.append(" timed out waiting for placement ");
    s.append(to_decimal(partition as u128).as_str());
    s.append(" to seed");
    Error::Raft(s)
}

// -- joining and leaving groups -------------------------------------------------

/// Why a plan does not admit a node as a learner of a group, if it does not.
pub open spec fn admission_defect(
    node: NodeId,
    group: GroupId,
    plan_id: u64,
    placement: Option<PlacementView>,
) -> Option<ErrorView> {
    match placement {
        None => Some(
            ErrorView::Raft("no meta leader confirmed placement for "@ + group.spec_label()),
        ),
        Some(p) => match p.move_plan {
            None => Some(
                ErrorView::Raft(
                    "learner admission for "@ + group.spec_label() + " has no live plan"@,
                ),
            ),
            Some(plan) => if plan.plan_id != plan_id {
                Some(
                    ErrorView::Raft(
                        "learner admission plan mismatch for "@ + group.spec_label()
                            + ": expected "@ + decimal(plan.plan_id as nat) + ", got "@ + decimal(
                            plan_id as nat,
                        ),
                    ),
                )
            } else if plan.aborting {
                Some(
                    ErrorView::Raft(
                        "learner admission plan "@ + decimal(plan_id as nat) + " for "@
                            + group.spec_label() + " is aborting"@,
                    ),
                )
            } else if rising_members(
                plan.target_voters.to_set().difference(p.voters.to_set()),
            ) != seq![node] {
                Some(
                    ErrorView::Raft(
                        "learner admission plan "@ + decimal(plan_id as nat) + " for "@
                            + group.spec_label() + " does not add node "@ + decimal(node as nat),
                    ),
                )
            } else {
                None
            },
        },
    }
}

fn plan_text(plan_id: u64, group: GroupId) -> (s: String)
    ensures
        s@ == "learner admission plan "@ + decimal(plan_id as nat) + " for "@ + group.spec_label(),
{
    let mut s = prefixed("learner admission plan ", to_decimal(plan_id as u128).as_str());
    s.append(" for ");
    s.append(group.label().as_str());
    s
}

/// Check that a plan admits this node as a learner of a group, given the
/// placement that the meta group confirmed.
pub fn verify_learner_plan(
    node: NodeId,
    group: GroupId,
    plan_id: u64,
    placement: Option<&Placement>,
) -> (r: Result<(), Error>)
    ensures
        match r {
            Ok(_) => admission_defect(node, group, plan_id, placement_view(placement)) is None,
            Err(e) => admission_defect(node, group, plan_id, placement_view(placement)) == Some(
                e@,
            ),
        },
{
    let p = match placement {
        Some(p) => p,
        None => {
            return Err(
                Error::Raft(
                    prefixed("no meta leader confirmed placement for ", group.label().as_str()),
                ),
            );
        },
    };
    let plan = match &p.move_plan {
        Some(plan) => plan,
        None => {
            let mut s = prefixed("learner admission for ", group.label().as_str());
            s.append(" has no live plan");
            return Err(Error::Raft(s));
        },
    };
    if plan.plan_id != plan_id {
        let mut s = prefixed("learner admission plan mismatch for ", group.label().as_str());
        s.append(": expected ");
        s.append(to_decimal(plan.plan_id as u128).as_str());
        s.append(", got ");
        s.append(to_decimal(plan_id as u128).as_str());
        return Err(Error::Raft(s));
    }
    if plan.aborting {
        let mut s = plan_text(plan_id, group);
        s.append(" is aborting");
        return Err(Error::Raft(s));
    }
    let target = rising_ids(&plan.target_voters);
    let added = difference(&target, &p.voters);
    proof {
        lemma_rising_set(added@);
    }
    if added.len() != 1 || added[0] != node {
        proof {
            if added@ == seq![node] {
                assert(added@.len() == 1 && added@[0] == node);
            }
        }
        let mut s = plan_text(plan_id, group);
        s.append(" does not add node ");
        s.append(to_decimal(node as u128).as_str());
        return Err(Error::Raft(s));
    }
    assert(added@ =~= seq![node]);
    Ok(())
}

/// Decide whether this node becomes a learner of a partition, given the confirmed
/// placement: the durable record that lets the group start.
pub fn admit_learner(
    node: NodeId,
    cluster_id: ClusterId,
    group: GroupId,
    plan_id: u64,
    placement: Option<&Placement>,
) -> (r: Result<LearnerAdmission, Error>)
    ensures
        match group {
            GroupId::Meta => r matches Err(e) && e@ == ErrorView::Raft(
                "cannot admit a learner for "@ + group.spec_label(),
            ),
            GroupId::Data(_) => match (
                r,
                admission_defect(node, group, plan_id, placement_view(placement)),
            ) {
                (Ok(a), None) => a == (LearnerAdmission { cluster_id, group, plan_id }),
                (Err(e), Some(f)) => e@ == f,
                _ => false,
            },
        },
{
    if let GroupId::Meta = group {
        return Err(
            Error::Raft(prefixed("cannot admit a learner for ", group.label().as_str())),
        );
    }
    match verify_learner_plan(node, group, plan_id, placement) {
        Ok(_) => Ok(LearnerAdmission { cluster_id, group, plan_id }),
        Err(e) => Err(e),
    }
}

/// Decide whether this node becomes a learner of the meta group.
pub fn admit_meta_learner(
    node: NodeId,
    cluster_id: ClusterId,
    plan_id: u64,
    placement: Option<&Placement>,
) -> (r: Result<LearnerAdmission, Error>)
    ensures
        match (
            r,
            admission_defect(node, GroupId::Meta, plan_id, placement_view(placement)),
        ) {
            (Ok(a), None) => a == (LearnerAdmission {
                cluster_id,
                group: GroupId::Meta,
                plan_id,
            }),
            (Err(e), Some(f)) => e@ == f,
            _ => false,
        },
{
    match verify_learner_plan(node, GroupId::Meta, plan_id, placement) {
        Ok(_) => Ok(LearnerAdmission { cluster_id, group: GroupId::Meta, plan_id }),
        Err(e) => Err(e),
    }
}

/// Decide, under the lock that admissions take too, whether a group that is hosted
/// here is given up now. Its placement must have been confirmed.
pub fn reclaim_group(hosted: bool, node: NodeId, group: GroupId, placement: Option<&Placement>) -> (r:
    Result<bool, Error>)
    ensures
        match r {
            Ok(yes) => (!hosted ==> !yes) && (hosted ==> placement is Some && yes == reclaimable(
                placement_view(placement),
                node,
            )),
            Err(e) => hosted && placement is None && e@ == ErrorView::Raft(
                "no meta leader confirmed placement for "@ + group.spec_label(),
            ),
        },
{
    if !hosted {
        return Ok(false);
    }
    match placement {
        None => Err(
            Error::Raft(
                prefixed("no meta leader confirmed placement for ", group.label().as_str()),
            ),
        ),
        Some(p) => Ok(should_reclaim(Some(p), node)),
    }
}

// -- control loops ----------------------------------------------------------------

/// A node's heartbeats, one after the other.
#[derive(Debug, Clone, Copy, PartialEq, Eq, Structural)]
pub struct HeartbeatEmitter {
    pub node_id: NodeId,
    pub incarnation: u64,
    pub process_incarnation: u64,
    pub seq: u64,
}

impl HeartbeatEmitter {
    pub fn new(registration: &RegistrationBinding, process_incarnation: u64) -> (h: HeartbeatEmitter)
        ensures
            h == (HeartbeatEmitter {
                node_id: registration.node_id,
                incarnation: registration.directory_incarnation,
                process_incarnation,
                seq: 1,
            }),
    {
        HeartbeatEmitter {
            node_id: registration.node_id,
            incarnation: registration.directory_incarnation,
            process_incarnation,
            seq: 1,
        }
    }

    /// The next heartbeat.
    pub fn beat(&mut self) -> (b: HeartbeatBody)
        ensures
            b == (HeartbeatBody {
                node_id: old(self).node_id,
                incarnation: old(self).incarnation,
                process_incarnation: old(self).process_incarnation,
                seq: old(self).seq,
            }),
            *final(self) == (HeartbeatEmitter {
                seq: (if old(self).seq == u64::MAX {
                    0u64
                } else {
                    (old(self).seq + 1) as u64
                }),
                ..*old(self)
            }),
    {
        let b = HeartbeatBody {
            node_id: self.node_id,
            incarnation: self.incarnation,
            process_incarnation: self.process_incarnation,
            seq: self.seq,
        };
        self.seq = if self.seq == u64::MAX {
            0
        } else {
            self.seq + 1
        };
        b
    }
}

/// What the detector is told of a directory.
pub open spec fn detector_states(directory: Seq<NodeEntryView>) -> Seq<DirectoryState> {
    directory.map_values(|e: NodeEntryView| (e.node_id, e.state, e.incarnation))
}

/// List what the detector is told of a directory.
pub fn directory_states(directory: &Vec<NodeDirectoryEntry>) -> (out: Vec<DirectoryState>)
    ensures
        out@ == detector_states(entry_views(directory@)),
{
    let ghost want = detector_states(entry_views(directory@));
    let mut out: Vec<DirectoryState> = Vec::new();
    let mut i: usize = 0;
    while i < directory.len()
        invariant
            i <= directory@.len(),
            want == detector_states(entry_views(directory@)),
            out@ == want.take(i as int),
        decreases directory@.len() - i,
    {
        let e = &directory[i];
        out.push((e.node_id, e.state, e.incarnation));
        assert(out@ =~= want.take(i + 1));
        i += 1;
    }
    assert(out@ =~= want);
    out
}

/// The command for a transition, under the incarnation that the directory holds.
pub open spec fn transition_command(
    directory: Seq<NodeEntryView>,
    transition: (NodeId, NodeState),
) -> MetaCommandView {
    MetaCommandView::SetNodeState {
        node_id: transition.0,
        state: transition.1,
        incarnation: match directory_entry(directory, transition.0) {
            Some(e) => e.incarnation,
            None => 0,
        },
    }
}

/// The commands for the transitions that the detector found.
pub fn failure_detector(
    directory: &Vec<NodeDirectoryEntry>,
    transitions: &Vec<(NodeId, NodeState)>,
) -> (out: Vec<MetaCommand>)
    ensures
        out@.len() == transitions@.len(),
        forall|i: int|
            0 <= i < out@.len() ==> (#[trigger] out@[i])@ == transition_command(
                entry_views(directory@),
                transitions@[i],
            ),
{
    let mut out: Vec<MetaCommand> = Vec::new();
    let mut i: usize = 0;
    while i < transitions.len()
        invariant
            i <= transitions@.len(),
            out@.len() == i,
            forall|k: int|
                0 <= k < i ==> (#[trigger] out@[k])@ == transition_command(
                    entry_views(directory@),
                    transitions@[k],
                ),
        decreases transitions@.len() - i,
    {
        let node_id: NodeId = transitions[i].0;
        let incarnation: u64 = match find_node(directory, node_id) {
            Some(k) => {
                assert(entry_views(directory@)[k as int] == directory@[k as int]@);
                directory[k].incarnation
            },
            None => 0,
        };
        out.push(MetaCommand::SetNodeState { node_id, state: transitions[i].1, incarnation });
        i += 1;
    }
    out
}

/// Whom a replica asks for a recovery fence: its leader, if it needs one and its
/// state has not failed.
pub fn fence_source(recovery_ready: bool, failed: bool, leader: Option<NodeId>) -> (r: Option<NodeId>)
    ensures
        r == (if recovery_ready || failed {
            None
        } else {
            leader
        }),
{
    if recovery_ready || failed {
        None
    } else {
        leader
    }
}

/// Whether an envelope can be a leader's answer to a request for a fence.
pub fn fence_answers(cluster_id: ClusterId, group: GroupId, envelope: &Envelope) -> (yes: bool)
    ensures
        yes == (envelope.cluster_id == cluster_id && envelope.msg_type is DataRecoveryFence
            && envelope.group_id == group),
{
    envelope.cluster_id == cluster_id && envelope.msg_type == MsgType::DataRecoveryFence
        && envelope.group_id == group
}

/// The outcome of shutting groups down: every group is shut down, and the first
/// error is reported.
pub fn shutdown_outcome(results: Vec<Result<(), Error>>) -> (r: Result<(), Error>)
    ensures
        match r {
            Ok(_) => forall|i: int| 0 <= i < results@.len() ==> (#[trigger] results@[i]) is Ok,
            Err(e) => exists|i: int|
                #![trigger results@[i]]
                0 <= i < results@.len() && results@[i] is Err && results@[i]->Err_0@ == e@ && (
                forall|k: int| 0 <= k < i ==> (#[trigger] results@[k]) is Ok),
        },
{
    let mut i: usize = 0;
    while i < results.len()
        invariant
            i <= results@.len(),
            forall|k: int| 0 <= k < i ==> (#[trigger] results@[k]) is Ok,
        decreases results@.len() - i,
    {
        if let Err(e) = &results[i] {
            let out = e.duplicate();
            assert(results@[i as int] is Err && results@[i as int]->Err_0@ == out@);
            return Err(out);
        }
        i += 1;
    }
    Ok(())
}

// -- laws ------------------------------------------------------------------------

/// A group that was given up stays gone: it is neither started nor resumed.
pub proof fn law_given_up_groups_stay_gone(s: StorageView, node: NodeId, desc: DescriptorView, p: u16)
    ensures
        given_up(s, GroupId::Meta) ==> !start_plan(s, node, desc).meta_voter && !start_plan(
            s,
            node,
            desc,
        ).resume_meta,
        given_up(s, GroupId::Data(p)) ==> !places(start_plan(s, node, desc).hosted, p)
            && !start_plan(s, node, desc).resumed.contains(p),
{
    lemma_hosted(s, desc.data_placements, node, p);
    lemma_held(s, desc.config.p as nat, p);
}

proof fn lemma_hosted(s: StorageView, placements: Seq<(u16, Seq<NodeId>)>, node: NodeId, p: u16)
    ensures
        given_up(s, GroupId::Data(p)) ==> !places(hosted_placements(s, placements, node), p),
    decreases placements.len(),
{
    if placements.len() > 0 {
        lemma_hosted(s, placements.drop_last(), node, p);
        let head = hosted_placements(s, placements.drop_last(), node);
        let all = hosted_placements(s, placements, node);
        if given_up(s, GroupId::Data(p)) && places(all, p) {
            let i = choose|i: int| 0 <= i < all.len() && (#[trigger] all[i]).0 == p;
            if i < head.len() {
                assert(head[i].0 == p);
            }
        }
    }
}

proof fn lemma_held(s: StorageView, n: nat, p: u16)
    ensures
        given_up(s, GroupId::Data(p)) ==> !held_partitions(s, n).contains(p),
    decreases n,
{
    if n > 0 {
        lemma_held(s, (n - 1) as nat, p);
        let head = held_partitions(s, (n - 1) as nat);
        let all = held_partitions(s, n);
        if given_up(s, GroupId::Data(p)) && all.contains(p) {
            let i = all.index_of(p);
            if i < head.len() {
                assert(head[i] == p);
            }
        }
    }
}

/// A plan admits at most one node: the one that it adds.
pub proof fn law_plans_admit_one_node(
    a: NodeId,
    b: NodeId,
    group: GroupId,
    plan_id: u64,
    placement: Option<PlacementView>,
)
    requires
        admission_defect(a, group, plan_id, placement) is None,
        admission_defect(b, group, plan_id, placement) is None,
    ensures
        a == b,
{
    assert(seq![a][0] == seq![b][0]);
}

/// A process that restarts where it was bound keeps its binding while the
/// directory cannot be had, and binds to a higher incarnation as soon as the
/// directory shows one.
pub proof fn law_restarts_keep_their_binding(
    cfg: NodeConfigView,
    desc: DescriptorView,
    previous: BindingView,
    directory: Seq<NodeEntryView>,
    e: ErrorView,
)
    requires
        previous.control_addr == cfg.control_addr,
        previous.bulk_addr == cfg.bulk_addr,
    ensures
        resolved_binding(cfg, desc, Some(previous), Err(e)) == Ok::<BindingView, ErrorView>(
            previous,
        ),
        directory_entry(directory, cfg.node_id) is Some ==> resolved_binding(
            cfg,
            desc,
            Some(previous),
            Ok(directory),
        ) == authoritative_binding(cfg, directory),
{
}

/// Only the designated voter initializes a group, so two voters never both do.
pub proof fn law_one_voter_initializes(voters: Seq<NodeId>, a: NodeId, b: NodeId)
    requires
        is_lowest(voters, a),
        is_lowest(voters, b),
    ensures
        a == b,
{
    let i = voters.index_of(a);
    let j = voters.index_of(b);
    assert(voters[i] == a && voters[j] == b);
}

/// Endpoints are sound if and only if each fits its bounds and no two are alike.
pub proof fn law_endpoints_are_unique(list: Seq<Seq<char>>)
    ensures
        endpoint_defect(list) is None <==> list.no_duplicates() && forall|i: int|
            0 <= i < list.len() ==> 0 < (#[trigger] list[i]).len() && encode_utf8(list[i]).len()
                <= MAX_ENDPOINT_BYTES,
    decreases list.len(),
{
    if list.len() > 0 {
        let head = list.drop_last();
        law_endpoints_are_unique(head);
        assert forall|i: int| 0 <= i < head.len() implies #[trigger] list[i] == head[i] by {}
        if endpoint_defect(list) is None {
            assert forall|i: int, j: int| 0 <= i < j < list.len() implies list[i] != list[j] by {
                if j == head.len() {
                    assert(head.contains(head[i]));
                } else {
                    assert(head[i] != head[j]);
                }
            }
        }
        if list.no_duplicates() && forall|i: int|
            0 <= i < list.len() ==> 0 < (#[trigger] list[i]).len() && encode_utf8(list[i]).len()
                <= MAX_ENDPOINT_BYTES {
            assert forall|i: int, j: int| 0 <= i < j < head.len() implies head[i] != head[j] by {
                assert(list[i] != list[j]);
            }
            assert forall|i: int| 0 <= i < head.len() implies 0 < (#[trigger] head[i]).len()
                && encode_utf8(head[i]).len() <= MAX_ENDPOINT_BYTES by {
                assert(list[i] == head[i]);
            }
            assert(!head.contains(list.last())) by {
                if head.contains(list.last()) {
                    let k = head.index_of(list.last());
                    assert(list[k] == list[list.len() - 1]);
                }
            }
            assert(list[list.len() - 1] == list.last());
        }
    }
}

/// The endpoints of a directory are every node's two lanes, in order.
pub proof fn law_endpoints_are_all_lanes(directory: Seq<DirEntryView>, i: int)
    requires
        0 <= i < directory.len(),
    ensures
        endpoints(directory).len() == 2 * directory.len(),
        endpoints(directory)[2 * i] == directory[i].control_addr,
        endpoints(directory)[2 * i + 1] == directory[i].bulk_addr,
    decreases directory.len(),
{
    lemma_endpoints_prefix(directory, 0);
    let init = directory.drop_last();
    lemma_endpoints_prefix(init, 0);
    if i < init.len() {
        law_endpoints_are_all_lanes(init, i);
        assert(init[i] == directory[i]);
    }
}

/// Initial placements are sound if and only if each is of a partition that exists and
/// is placed once, on exactly as many distinct listed nodes as the cluster replicates
/// to.
pub proof fn law_initial_placements_are_sound(
    list: Seq<(u16, Seq<NodeId>)>,
    p: u16,
    r: u8,
    nodes: Set<NodeId>,
)
    ensures
        placements_defect(list, p, r, nodes) is None <==> {
            &&& forall|i: int, j: int|
                0 <= i < j < list.len() ==> (#[trigger] list[i]).0 != (#[trigger] list[j]).0
            &&& forall|i: int| 0 <= i < list.len() ==> sound_seed(#[trigger] list[i], p, r, nodes)
        },
    decreases list.len(),
{
    if list.len() > 0 {
        let head = list.drop_last();
        let last = list.last();
        law_initial_placements_are_sound(head, p, r, nodes);
        assert forall|i: int| 0 <= i < head.len() implies #[trigger] list[i] == head[i] by {}
        assert(list[list.len() - 1] == last);
        lemma_sound_seed(last, p, r, nodes);
        if placements_defect(list, p, r, nodes) is None {
            assert forall|i: int, j: int| 0 <= i < j < list.len() implies (#[trigger] list[i]).0 != (
            #[trigger] list[j]).0 by {
                if j == head.len() {
                    assert(head[i].0 != last.0) by {
                        if head[i].0 == last.0 {
                            assert(places(head, last.0));
                        }
                    }
                } else {
                    assert(head[i].0 != head[j].0);
                }
            }
            assert forall|i: int| 0 <= i < list.len() implies sound_seed(
                #[trigger] list[i],
                p,
                r,
                nodes,
            ) by {
                if i < head.len() {
                    assert(sound_seed(head[i], p, r, nodes));
                }
            }
        }
        if (forall|i: int, j: int|
            0 <= i < j < list.len() ==> (#[trigger] list[i]).0 != (#[trigger] list[j]).0) && (forall|
            i: int,
        |
            0 <= i < list.len() ==> sound_seed(#[trigger] list[i], p, r, nodes)) {
            assert forall|i: int, j: int| 0 <= i < j < head.len() implies (#[trigger] head[i]).0 != (
            #[trigger] head[j]).0 by {
                assert(list[i].0 != list[j].0);
            }
            assert forall|i: int| 0 <= i < head.len() implies sound_seed(
                #[trigger] head[i],
                p,
                r,
                nodes,
            ) by {
                assert(sound_seed(list[i], p, r, nodes));
            }
            assert(sound_seed(list[list.len() - 1], p, r, nodes));
            assert(!places(head, last.0)) by {
                if places(head, last.0) {
                    let k = choose|k: int| 0 <= k < head.len() && (#[trigger] head[k]).0 == last.0;
                    assert(list[k].0 != list[list.len() - 1].0);
                }
            }
        }
    }
}

/// Whether an initial placement is of a partition that exists, on as many distinct
/// listed nodes as it should be.
pub open spec fn sound_seed(
    seed: (u16, Seq<NodeId>),
    p: u16,
    r: u8,
    nodes: Set<NodeId>,
) -> bool {
    &&& seed.0 < p
    &&& seed.1.len() == r
    &&& seed.1.no_duplicates()
    &&& forall|k: int| 0 <= k < seed.1.len() ==> nodes.contains(#[trigger] seed.1[k])
}

proof fn lemma_sound_seed(seed: (u16, Seq<NodeId>), p: u16, r: u8, nodes: Set<NodeId>)
    ensures
        sound_seed(seed, p, r, nodes) <==> seed.0 < p && seed.1.len() == r
            && seed.1.no_duplicates() && seed.1.to_set().subset_of(nodes),
{
    if seed.1.to_set().subset_of(nodes) {
        assert forall|k: int| 0 <= k < seed.1.len() implies nodes.contains(
            #[trigger] seed.1[k],
        ) by {
            assert(seed.1.to_set().contains(seed.1[k]));
        }
    } else {
        let v = choose|v: NodeId| seed.1.to_set().contains(v) && !nodes.contains(v);
        let k = seed.1.index_of(v);
        assert(seed.1[k] == v);
    }
}

/// A node accepts a descriptor if and only if its own configuration is sound, both
/// are of one cluster and of this protocol, the directory is not too large, the
/// founding input that the descriptor amounts to is sound, all endpoints are unique
/// and every partition has a sound initial placement.
pub proof fn law_descriptors_are_accepted(cfg: NodeConfigView, desc: DescriptorView)
    ensures
        descriptor_defect(cfg, desc) is None <==> {
            &&& cfg.defect() is None
            &&& cfg.cluster_id == desc.cluster_id
            &&& desc.config.cluster_id == desc.cluster_id
            &&& desc.config.protocol_version == PROTOCOL_VERSION
            &&& desc.directory.len() <= MAX_CLUSTER_NODES
            &&& (InitConfigView {
                p: desc.config.p,
                r: desc.config.r,
                bootstrap_nodes: descriptor_nodes(desc.directory),
                meta_voters: desc.meta_voters,
                hash_spec: desc.config.hash_spec,
            }).defect() is None
            &&& endpoint_defect(endpoints(desc.directory)) is None
            &&& desc.data_placements.len() == desc.config.p
            &&& placements_defect(
                desc.data_placements,
                desc.config.p,
                desc.config.r,
                descriptor_nodes(desc.directory).to_set(),
            ) is None
        },
{
}

/// A node's registration is taken from the directory if and only if the directory
/// lists it at both of its own addresses; it is then bound to the listed incarnation.
pub proof fn law_registrations_match_the_directory(
    cfg: NodeConfigView,
    directory: Seq<NodeEntryView>,
)
    ensures
        ({
            let e = directory_entry(directory, cfg.node_id)->0;
            let r = authoritative_binding(cfg, directory);
            &&& r is Ok <==> directory_entry(directory, cfg.node_id) is Some && e.control_addr
                == cfg.control_addr && e.bulk_addr == cfg.bulk_addr
            &&& r matches Ok(b) ==> b.cluster_id == cfg.cluster_id && b.node_id == cfg.node_id
                && b.control_addr == cfg.control_addr && b.bulk_addr == cfg.bulk_addr
                && b.directory_incarnation == e.incarnation
        }),
{
}

/// A node that was bound before confirms its binding where its addresses are the
/// same; one that never was starts from the descriptor where that lists it at its
/// addresses, at incarnation one; every other must be registered first.
pub proof fn law_registration_begins(
    cfg: NodeConfigView,
    desc: DescriptorView,
    previous: Option<BindingView>,
    e: ErrorView,
    directory: Seq<NodeEntryView>,
)
    ensures
        ({
            let step = registration_step(cfg, desc, previous);
            let b = previous->0;
            let listed_here = exists|i: int|
                0 <= i < desc.directory.len() && (#[trigger] desc.directory[i]).node_id
                    == cfg.node_id && desc.directory[i].control_addr == cfg.control_addr
                    && desc.directory[i].bulk_addr == cfg.bulk_addr;
            &&& step is Confirm <==> previous is Some && b.control_addr == cfg.control_addr
                && b.bulk_addr == cfg.bulk_addr
            &&& step is Genesis <==> previous is None && listed_here
            &&& step is Genesis ==> (resolved_binding(cfg, desc, previous, Err(e)) matches Ok(g)
                && g.directory_incarnation == 1 && g.node_id == cfg.node_id && g.cluster_id
                == cfg.cluster_id && g.control_addr == cfg.control_addr && g.bulk_addr
                == cfg.bulk_addr)
            &&& step is Require ==> resolved_binding(cfg, desc, previous, Err(e)) == Err::<
                BindingView,
                ErrorView,
            >(e)
            &&& step is Require ==> resolved_binding(cfg, desc, previous, Ok(directory))
                == authoritative_binding(cfg, directory)
            &&& step is Confirm && directory_entry(directory, cfg.node_id) is None
                ==> resolved_binding(cfg, desc, previous, Ok(directory)) == if b.directory_incarnation
                == 1 && listed_here {
                Ok::<BindingView, ErrorView>(b)
            } else {
                authoritative_binding(cfg, directory)
            }
        }),
{
    let want = DirEntryView {
        node_id: cfg.node_id,
        control_addr: cfg.control_addr,
        bulk_addr: cfg.bulk_addr,
    };
    if desc.directory.contains(want) {
        let i = desc.directory.index_of(want);
        assert(desc.directory[i] == want);
    }
    if exists|i: int|
        0 <= i < desc.directory.len() && (#[trigger] desc.directory[i]).node_id == cfg.node_id
            && desc.directory[i].control_addr == cfg.control_addr && desc.directory[i].bulk_addr
            == cfg.bulk_addr {
        let i = choose|i: int|
            0 <= i < desc.directory.len() && (#[trigger] desc.directory[i]).node_id == cfg.node_id
                && desc.directory[i].control_addr == cfg.control_addr
                && desc.directory[i].bulk_addr == cfg.bulk_addr;
        assert(desc.directory[i] == want);
    }
}

/// A node starts a data group from the descriptor if and only if that places it on
/// the node and the node has not given it up; it resumes every partition whose state
/// it holds and has not given up.
pub proof fn law_starts_follow_the_descriptor(
    s: StorageView,
    node: NodeId,
    desc: DescriptorView,
    seed: (u16, Seq<NodeId>),
    q: u16,
)
    ensures
        ({
            let plan = start_plan(s, node, desc);
            let gone = |g: GroupId| s.serving_state(g) == Some(ServingState::NonServing);
            &&& plan.hosted.contains(seed) <==> desc.data_placements.contains(seed)
                && seed.1.contains(node) && !gone(GroupId::Data(seed.0))
            &&& plan.resumed.contains(q) <==> q < desc.config.p && s.groups.contains(
                GroupId::Data(q),
            ) && !gone(GroupId::Data(q))
            &&& plan.meta_voter <==> desc.meta_voters.contains(node) && !gone(GroupId::Meta)
            &&& plan.resume_meta <==> !desc.meta_voters.contains(node) && s.groups.contains(
                GroupId::Meta,
            ) && !gone(GroupId::Meta)
        }),
{
    lemma_hosted_exactly(s, desc.data_placements, node, seed);
    lemma_held_exactly(s, desc.config.p as nat, q);
}

proof fn lemma_hosted_exactly(
    s: StorageView,
    placements: Seq<(u16, Seq<NodeId>)>,
    node: NodeId,
    seed: (u16, Seq<NodeId>),
)
    ensures
        hosted_placements(s, placements, node).contains(seed) <==> placements.contains(seed)
            && seed.1.contains(node) && !given_up(s, GroupId::Data(seed.0)),
    decreases placements.len(),
{
    if placements.len() > 0 {
        let init = placements.drop_last();
        lemma_hosted_exactly(s, init, node, seed);
        let head = hosted_placements(s, init, node);
        let all = hosted_placements(s, placements, node);
        if head.contains(seed) {
            let k = head.index_of(seed);
            assert(all[k] == seed);
        }
        if all.contains(seed) && !head.contains(seed) {
            let k = all.index_of(seed);
            if k < head.len() {
                assert(head[k] == seed);
            }
            assert(placements[placements.len() - 1] == seed);
        }
        if init.contains(seed) {
            let k = init.index_of(seed);
            assert(placements[k] == seed);
        }
        if placements.contains(seed) && !init.contains(seed) {
            let k = placements.index_of(seed);
            if k < init.len() {
                assert(init[k] == seed);
            }
            if seed.1.contains(node) && !given_up(s, GroupId::Data(seed.0)) {
                assert(all[head.len() as int] == seed);
            }
        }
    }
}

proof fn lemma_held_exactly(s: StorageView, n: nat, q: u16)
    requires
        n <= u16::MAX,
    ensures
        held_partitions(s, n).contains(q) <==> q < n && s.groups.contains(GroupId::Data(q))
            && !given_up(s, GroupId::Data(q)),
    decreases n,
{
    if n > 0 {
        lemma_held_exactly(s, (n - 1) as nat, q);
        let head = held_partitions(s, (n - 1) as nat);
        let all = held_partitions(s, n);
        if head.contains(q) {
            let k = head.index_of(q);
            assert(all[k] == q);
        }
        if all.contains(q) && !head.contains(q) {
            let k = all.index_of(q);
            if k < head.len() {
                assert(head[k] == q);
            }
        }
        if q == n - 1 && s.groups.contains(GroupId::Data(q)) && !given_up(s, GroupId::Data(q)) {
            assert(all[head.len() as int] == q);
        }
    }
}

/// What a node marks at its start: the meta group with the descriptor's meta voters
/// where it is one of them, and each data group it starts with that group's voters.
pub proof fn law_starts_are_marked(
    cluster_id: ClusterId,
    desc: DescriptorView,
    plan: StartView,
    i: int,
)
    requires
        0 <= i < plan.hosted.len(),
    ensures
        ({
            let markers = start_markers(cluster_id, desc, plan);
            let first: int = if plan.meta_voter {
                1
            } else {
                0
            };
            &&& markers.len() == first + plan.hosted.len()
            &&& plan.meta_voter ==> markers[0].group == GroupId::Meta && markers[0].members
                == desc.meta_voters && markers[0].cluster_id == cluster_id
            &&& markers[first + i].group == GroupId::Data(plan.hosted[i].0) && markers[first
                + i].members == plan.hosted[i].1 && markers[first + i].cluster_id == cluster_id
        }),
{
}

/// The groups a node starts are those of its plan: the meta group where it votes in
/// it or resumes it, and the data groups it hosts or resumes.
pub proof fn law_started_groups_are_planned(plan: StartView, group: GroupId)
    ensures
        started_groups(plan).contains(group) <==> match group {
            GroupId::Meta => plan.meta_voter || plan.resume_meta,
            GroupId::Data(q) => places(plan.hosted, q) || plan.resumed.contains(q),
        },
{
    let first = if plan.meta_voter {
        seq![GroupId::Meta]
    } else {
        Seq::empty()
    };
    let last = if plan.resume_meta {
        seq![GroupId::Meta]
    } else {
        Seq::empty()
    };
    let hosted = plan.hosted.map_values(|h: (u16, Seq<NodeId>)| GroupId::Data(h.0));
    let resumed = plan.resumed.map_values(|p: u16| GroupId::Data(p));
    let all = started_groups(plan);
    let n = first.len() as int;
    let m = n + hosted.len();
    let o = m + resumed.len();
    if plan.meta_voter {
        assert(all[0] == GroupId::Meta);
    }
    if plan.resume_meta {
        assert(all[o] == GroupId::Meta);
    }
    if let GroupId::Data(q) = group {
        if places(plan.hosted, q) {
            let k = choose|k: int| 0 <= k < plan.hosted.len() && (#[trigger] plan.hosted[k]).0 == q;
            assert(all[n + k] == GroupId::Data(q));
        }
        if plan.resumed.contains(q) {
            let k = plan.resumed.index_of(q);
            assert(all[m + k] == GroupId::Data(q));
        }
    }
    if all.contains(group) {
        let k = all.index_of(group);
        if k < n {
            assert(first[k] == group);
        } else if k < m {
            assert(hosted[k - n] == group);
            assert(GroupId::Data(plan.hosted[k - n].0) == group);
        } else if k < o {
            assert(resumed[k - m] == group);
            assert(plan.resumed[k - m] == group->Data_0);
        } else {
            assert(last[k - o] == group);
        }
    }
}

/// A node starts if and only if its descriptor is accepted, its registration
/// resolves, no marker conflicts with one that stands, and every group it would start
/// may start. A start that fails before it is bound changes nothing.
pub proof fn law_starts_need_every_step(
    cfg: NodeConfigView,
    desc: DescriptorView,
    s: StorageView,
    fetched: Result<Seq<NodeEntryView>, ErrorView>,
)
    ensures
        ({
            let (r, t) = start_outcome(cfg, desc, s, fetched);
            let binding = resolved_binding(cfg, desc, s.binding, fetched);
            let bound = StorageView { binding: Some(binding->Ok_0), ..s };
            let plan = start_plan(bound, cfg.node_id, desc);
            let (u, failed) = mark_all(bound, start_markers(cfg.cluster_id, desc, plan));
            &&& r is Ok <==> descriptor_defect(cfg, desc) is None && binding is Ok && failed is None
                && first_refusal(u, started_groups(plan)) is None
            &&& r matches Ok((b, p)) ==> Ok::<BindingView, ErrorView>(b) == binding && p == plan
                && t == u
            &&& descriptor_defect(cfg, desc) is Some || binding is Err ==> t == s
        }),
{
}

/// The first group of a list that may not start refuses it; where every one may, none
/// does.
pub proof fn law_one_refusal_stops_the_start(s: StorageView, groups: Seq<GroupId>)
    ensures
        first_refusal(s, groups) is None <==> forall|i: int|
            0 <= i < groups.len() ==> s.start_defect(#[trigger] groups[i]) is None,
    decreases groups.len(),
{
    if groups.len() > 0 {
        let init = groups.drop_last();
        law_one_refusal_stops_the_start(s, init);
        assert forall|i: int| 0 <= i < init.len() implies #[trigger] groups[i] == init[i] by {}
        assert(groups[groups.len() - 1] == groups.last());
        if forall|i: int| 0 <= i < groups.len() ==> s.start_defect(#[trigger] groups[i]) is None {
            assert forall|i: int| 0 <= i < init.len() implies s.start_defect(
                #[trigger] init[i],
            ) is None by {
                assert(s.start_defect(groups[i]) is None);
            }
        }
        if first_refusal(s, groups) is None {
            assert forall|i: int| 0 <= i < groups.len() implies s.start_defect(
                #[trigger] groups[i],
            ) is None by {
                if i < init.len() {
                    assert(s.start_defect(init[i]) is None);
                }
            }
        }
    }
}

/// A learner is admitted if and only if its group's placement is known and a plan of
/// the named id, not aborting, takes in exactly this node.
pub proof fn law_learners_are_admitted(
    node: NodeId,
    group: GroupId,
    plan_id: u64,
    placement: Option<PlacementView>,
)
    ensures
        admission_defect(node, group, plan_id, placement) is None <==> {
            &&& placement is Some && placement->0.move_plan is Some
            &&& placement->0.move_plan->0.plan_id == plan_id
            &&& !placement->0.move_plan->0.aborting
            &&& placement->0.move_plan->0.target_voters.to_set().difference(
                placement->0.voters.to_set(),
            ) == set![node]
        },
{
    let one = seq![node];
    assert(one.to_set() =~= set![node]) by {
        assert(one[0] == node);
        assert forall|y: NodeId| one.to_set().contains(y) implies y == node by {
            let k = one.index_of(y);
        }
    }
    lemma_rising_set(one);
    if placement is Some && placement->0.move_plan is Some {
        let list = placement->0.move_plan->0.target_voters;
        let voters = placement->0.voters.to_set();
        let w = lemma_difference_list(list, voters);
        lemma_rising_exists(w);
    }
}

/// A data group counts as seeded if and only if it is placed, not moving, on exactly
/// the voters it was to begin with; a move before that is an error.
pub proof fn law_groups_are_seeded(
    partition: u16,
    voters: Seq<NodeId>,
    placement: Option<PlacementView>,
)
    ensures
        seeded(partition, voters, placement) == Ok::<bool, ErrorView>(true) <==> placement is Some
            && placement->0.move_plan is None && placement->0.voters == voters,
        seeded(partition, voters, placement) is Err <==> placement is Some
            && placement->0.move_plan is Some,
{
}

/// The detector reads of the directory each node's state and incarnation, and
/// proposes a change at the incarnation that the directory lists.
pub proof fn law_detection_reads_the_directory(
    directory: Seq<NodeEntryView>,
    i: int,
    node: NodeId,
    state: NodeState,
)
    requires
        0 <= i < directory.len(),
    ensures
        detector_states(directory).len() == directory.len(),
        detector_states(directory)[i] == (
            directory[i].node_id,
            directory[i].state,
            directory[i].incarnation,
        ),
        directory_entry(directory, node) matches Some(e) ==> transition_command(
            directory,
            (node, state),
        ) == (MetaCommandView::SetNodeState { node_id: node, state, incarnation: e.incarnation }),
{
}

} // verus!
