//! Configuration as it is written in files: cluster ids in hexadecimal, a node's
//! configuration, and the descriptor of a new cluster. Every node given the same
//! file derives the same descriptor.
use crate::config::{
    parse_partition_count, partition_count_of, InitConfig, InitConfigView, NodeConfig,
    NodeConfigView, Timeouts,
};
use crate::error::{Error, ErrorView};
use crate::meta::bootstrap::{
    dir_views, seed_views, BootstrapDescriptor, DescriptorView, DirEntry, DirEntryView,
};
use crate::sets::{
    lemma_distinct_count, lemma_rising_unique, lemma_sorted, lemma_sorted_distinct, sort_ids, sorted,
};
use crate::strings::texts;
use crate::number::{law_number_round_trip, number_in, parse_number};
use crate::text::{decimal, hex, prefixed, radix_text, to_decimal, to_hex};
use crate::types::{ClusterConfig, ClusterId, HashSpec, NodeId, PROTOCOL_VERSION};
use vstd::prelude::*;
use vstd::string::StrSliceExecFns;

verus! {

/// A text without its hexadecimal prefix, if it has one.
pub open spec fn unprefixed(s: Seq<char>) -> Seq<char> {
    if s.len() >= 2 && s[0] == '0' && s[1] == 'x' {
        s.skip(2)
    } else {
        s
    }
}

/// The cluster id that a text spells, with or without a prefix.
pub open spec fn cluster_id_in(s: Seq<char>) -> Result<ClusterId, ErrorView> {
    match number_in(unprefixed(s), 16, u128::MAX as nat) {
        Ok(n) => Ok(n as u128),
        Err(e) => Err(ErrorView::Config("cluster_id must be a hex u128: "@ + e.text())),
    }
}

/// Read a cluster id.
pub fn parse_cluster_id(s: &str) -> (r: Result<ClusterId, Error>)
    ensures
        match (r, cluster_id_in(s@)) {
            (Ok(a), Ok(b)) => a == b,
            (Err(e), Err(f)) => e@ == f,
            _ => false,
        },
{
    let len: usize = s.unicode_len();
    let mut from: usize = 0;
    if len >= 2 && s.get_char(0) == '0' && s.get_char(1) == 'x' {
        from = 2;
    }
    assert(s@.skip(0) =~= s@);
    let ghost body = unprefixed(s@);
    assert(body =~= s@.skip(from as int));
    let number = parse_number(s, from, 16, u128::MAX);
    match number {
        Ok(n) => Ok(n),
        Err(e) => Err(Error::Config(prefixed("cluster_id must be a hex u128: ", e.to_text()))),
    }
}

/// A cluster id the way files and reports spell it.
pub fn cluster_id_hex(id: ClusterId) -> (s: String)
    ensures
        s@ == hex(id as nat),
{
    to_hex(id)
}

/// A cluster id is read back from what it is written as.
pub proof fn law_cluster_id_round_trip(id: ClusterId)
    ensures
        cluster_id_in(hex(id as nat)) == Ok::<ClusterId, ErrorView>(id),
{
    let t = radix_text(id as nat, 16);
    law_number_round_trip(id as nat, 16, u128::MAX as nat);
    reveal_strlit("0x");
    let s = hex(id as nat);
    assert(s.skip(2) =~= t);
    assert(s[0] == '0' && s[1] == 'x');
}

// -- node files --------------------------------------------------------------

/// A node's configuration as its file spells it, with times in milliseconds.
pub struct NodeFile {
    pub cluster_id: String,
    pub node_id: NodeId,
    pub control_addr: String,
    pub bulk_addr: String,
    pub http_addr: Option<String>,
    pub seeds: Vec<String>,
    pub data_dir: String,
    pub timeouts: Timeouts,
}

impl NodeFile {
    /// The configuration that the file spells for a cluster id.
    pub open spec fn config(&self, cluster_id: ClusterId) -> NodeConfigView {
        NodeConfigView {
            cluster_id,
            node_id: self.node_id,
            control_addr: self.control_addr@,
            bulk_addr: self.bulk_addr@,
            http_addr: match self.http_addr {
                Some(a) => Some(a@),
                None => None,
            },
            seeds: texts(self.seeds@),
            data_dir: self.data_dir@,
            timeouts: self.timeouts,
        }
    }
}

/// The configuration of a node, checked.
pub fn load_node_config(file: NodeFile) -> (r: Result<NodeConfig, Error>)
    ensures
        match cluster_id_in(file.cluster_id@) {
            Err(f) => r matches Err(e) && e@ == f,
            Ok(id) => match (r, file.config(id).defect()) {
                (Ok(config), None) => config@ == file.config(id),
                (Err(e), Some(f)) => e@ == f,
                _ => false,
            },
        },
{
    let cluster_id = match parse_cluster_id(file.cluster_id.as_str()) {
        Ok(id) => id,
        Err(e) => {
            return Err(e);
        },
    };
    let config = NodeConfig {
        cluster_id,
        node_id: file.node_id,
        control_addr: file.control_addr,
        bulk_addr: file.bulk_addr,
        http_addr: file.http_addr,
        seeds: file.seeds,
        data_dir: file.data_dir,
        timeouts: file.timeouts,
    };
    assert(config@ =~= file.config(cluster_id));
    match config.validate() {
        Ok(_) => Ok(config),
        Err(e) => Err(e),
    }
}

// -- cluster files -----------------------------------------------------------

/// A new cluster as its file spells it.
pub struct InitFile {
    pub cluster_id: String,
    pub p: u64,
    pub r: u8,
    pub hash_spec: Option<HashSpec>,
    pub meta_voters: Vec<NodeId>,
    pub nodes: Vec<DirEntry>,
}

/// The content of a cluster file.
#[verifier::ext_equal]
pub struct InitFileView {
    pub cluster_id: Seq<char>,
    pub p: u64,
    pub r: u8,
    pub hash_spec: Option<HashSpec>,
    pub meta_voters: Seq<NodeId>,
    pub nodes: Seq<DirEntryView>,
}

impl View for InitFile {
    type V = InitFileView;

    open spec fn view(&self) -> InitFileView {
        InitFileView {
            cluster_id: self.cluster_id@,
            p: self.p,
            r: self.r,
            hash_spec: self.hash_spec,
            meta_voters: self.meta_voters@,
            nodes: dir_views(self.nodes@),
        }
    }
}

/// Where an entry goes in a list ordered by node id: behind every entry whose id
/// is not greater.
pub open spec fn dir_place(s: Seq<DirEntryView>, id: NodeId) -> int
    decreases s.len(),
{
    if s.len() == 0 {
        0
    } else if s.last().node_id <= id {
        s.len() as int
    } else {
        dir_place(s.drop_last(), id)
    }
}

/// A directory ordered by node id.
pub open spec fn dir_sorted(s: Seq<DirEntryView>) -> Seq<DirEntryView>
    decreases s.len(),
{
    if s.len() == 0 {
        Seq::empty()
    } else {
        let head = dir_sorted(s.drop_last());
        head.insert(dir_place(head, s.last().node_id), s.last())
    }
}

/// The node ids of a directory.
pub open spec fn dir_ids(s: Seq<DirEntryView>) -> Seq<NodeId> {
    s.map_values(|d: DirEntryView| d.node_id)
}

/// Whether two nodes share an address, or one uses one address twice.
pub open spec fn addresses_clash(a: DirEntryView, b: DirEntryView) -> bool {
    ||| a.control_addr == a.bulk_addr
    ||| a.control_addr == b.control_addr
    ||| a.control_addr == b.bulk_addr
    ||| a.bulk_addr == b.control_addr
    ||| a.bulk_addr == b.bulk_addr
    ||| b.control_addr == b.bulk_addr
}

/// The first neighbours of a list whose addresses clash.
pub open spec fn first_clash(s: Seq<DirEntryView>, n: int) -> Option<int>
    decreases n,
{
    if n < 2 {
        None
    } else {
        match first_clash(s, n - 1) {
            Some(i) => Some(i),
            None => if addresses_clash(s[n - 2], s[n - 1]) {
                Some(n - 2)
            } else {
                None
            },
        }
    }
}

/// The voters of a partition at first: as many consecutive nodes as there are
/// replicas, from a place that moves on with the partition.
pub open spec fn initial_voters(i: int, r: u8, nodes: Seq<NodeId>) -> Seq<NodeId> {
    Seq::new(r as nat, |k: int| nodes[(i + k) % nodes.len() as int])
}

/// The placements of a new cluster.
pub open spec fn genesis(p: u16, r: u8, nodes: Seq<NodeId>) -> Seq<(u16, Seq<NodeId>)> {
    Seq::new(p as nat, |i: int| (i as u16, initial_voters(i, r, nodes)))
}

/// The configuration that a cluster file is held to.
pub open spec fn init_config(f: InitFileView, p: u16) -> InitConfigView {
    InitConfigView {
        p,
        r: f.r,
        bootstrap_nodes: dir_ids(f.nodes),
        meta_voters: f.meta_voters,
        hash_spec: match f.hash_spec {
            Some(h) => h,
            None => HashSpec::CANONICAL,
        },
    }
}

/// The descriptor that a cluster file stands for, or its first error.
pub open spec fn descriptor_in(f: InitFileView) -> Result<DescriptorView, ErrorView> {
    match cluster_id_in(f.cluster_id) {
        Err(e) => Err(e),
        Ok(cluster_id) => match partition_count_of(f.p) {
            Err(e) => Err(e),
            Ok(p) => {
                let init = init_config(f, p);
                let directory = dir_sorted(f.nodes);
                match init.defect() {
                    Some(e) => Err(e),
                    None => match first_clash(directory, directory.len() as int) {
                        Some(i) => Err(
                            ErrorView::Config(
                                "nodes "@ + decimal(directory[i].node_id as nat) + " and "@
                                    + decimal(directory[i + 1].node_id as nat)
                                    + " share an address"@,
                            ),
                        ),
                        None => Ok(
                            DescriptorView {
                                cluster_id,
                                config: ClusterConfig {
                                    cluster_id,
                                    protocol_version: PROTOCOL_VERSION,
                                    p,
                                    r: f.r,
                                    hash_spec: init.hash_spec,
                                },
                                meta_voters: sorted(f.meta_voters),
                                directory,
                                data_placements: genesis(p, f.r, dir_ids(directory)),
                            },
                        ),
                    },
                }
            },
        },
    }
}

/// The placements of a new cluster: partition `i` gets `r` consecutive nodes of
/// the list, starting at `i` modulo its length.
pub fn initial_placements(p: u16, r: u8, sorted_nodes: &[NodeId]) -> (out: Vec<(u16, Vec<NodeId>)>)
    requires
        sorted_nodes@.len() > 0,
    ensures
        seed_views(out@) == genesis(p, r, sorted_nodes@),
{
    let n: usize = sorted_nodes.len();
    let mut out: Vec<(u16, Vec<NodeId>)> = Vec::new();
    let mut i: u16 = 0;
    while i < p
        invariant
            i <= p,
            n == sorted_nodes@.len(),
            n > 0,
            out@.len() == i,
            forall|j: int|
                0 <= j < i ==> (#[trigger] out@[j]).0 == j && out@[j].1@ == initial_voters(
                    j,
                    r,
                    sorted_nodes@,
                ),
        decreases p - i,
    {
        let mut voters: Vec<NodeId> = Vec::new();
        let mut k: u8 = 0;
        while k < r
            invariant
                k <= r,
                n == sorted_nodes@.len(),
                n > 0,
                voters@ == initial_voters(i as int, r, sorted_nodes@).take(k as int),
            decreases r - k,
        {
            let at: usize = (i as usize + k as usize) % n;
            voters.push(sorted_nodes[at]);
            assert(voters@ =~= initial_voters(i as int, r, sorted_nodes@).take(k + 1));
            k += 1;
        }
        assert(voters@ =~= initial_voters(i as int, r, sorted_nodes@));
        out.push((i, voters));
        i += 1;
    }
    assert(seed_views(out@) =~= genesis(p, r, sorted_nodes@));
    out
}

fn sort_directory(nodes: &Vec<DirEntry>) -> (out: Vec<DirEntry>)
    ensures
        dir_views(out@) == dir_sorted(dir_views(nodes@)),
{
    let mut out: Vec<DirEntry> = Vec::new();
    let ghost views = dir_views(nodes@);
    let mut i: usize = 0;
    proof {
        assert(views.take(0) =~= Seq::<DirEntryView>::empty());
        assert(dir_views(out@) =~= Seq::<DirEntryView>::empty());
    }
    while i < nodes.len()
        invariant
            i <= nodes@.len(),
            views == dir_views(nodes@),
            dir_views(out@) == dir_sorted(views.take(i as int)),
            out@.len() == i,
        decreases nodes@.len() - i,
    {
        let entry = nodes[i].duplicate();
        let ghost head = dir_views(out@);
        let mut at: usize = out.len();
        assert(head.take(at as int) =~= head);
        while at > 0 && out[at - 1].node_id > entry.node_id
            invariant
                at <= out@.len(),
                head == dir_views(out@),
                dir_place(head, entry.node_id) == dir_place(
                    head.take(at as int),
                    entry.node_id,
                ),
            decreases at,
        {
            assert(head.take(at as int).last() == out@[at - 1]@);
            assert(head.take(at as int).drop_last() =~= head.take(at - 1));
            at -= 1;
        }
        proof {
            if at > 0 {
                assert(head.take(at as int).last() == out@[at - 1]@);
            }
            assert(dir_place(head, entry.node_id) == at);
            assert(views.take(i + 1).drop_last() =~= views.take(i as int));
            assert(views.take(i + 1).last() == entry@);
        }
        let ghost view = entry@;
        out.insert(at, entry);
        assert(dir_views(out@) =~= head.insert(at as int, view));
        i += 1;
    }
    assert(views.take(i as int) =~= views);
    out
}

fn clash(a: &DirEntry, b: &DirEntry) -> (yes: bool)
    ensures
        yes == addresses_clash(a@, b@),
{
    a.control_addr == a.bulk_addr || a.control_addr == b.control_addr || a.control_addr
        == b.bulk_addr || a.bulk_addr == b.control_addr || a.bulk_addr == b.bulk_addr
        || b.control_addr == b.bulk_addr
}

proof fn lemma_clash_stays(s: Seq<DirEntryView>, n: int, m: int)
    requires
        0 <= n <= m,
        first_clash(s, n) is Some,
    ensures
        first_clash(s, m) == first_clash(s, n),
    decreases m - n,
{
    if n < m {
        lemma_clash_stays(s, n, m - 1);
    }
}

/// The descriptor of a new cluster, checked. It does not depend on the order of
/// the file's entries.
pub fn load_init_descriptor(file: InitFile) -> (r: Result<BootstrapDescriptor, Error>)
    ensures
        match (r, descriptor_in(file@)) {
            (Ok(d), Ok(v)) => d@ == v,
            (Err(e), Err(f)) => e@ == f,
            _ => false,
        },
{
    let cluster_id = match parse_cluster_id(file.cluster_id.as_str()) {
        Ok(id) => id,
        Err(e) => {
            return Err(e);
        },
    };
    let p: u16 = match parse_partition_count(file.p) {
        Ok(p) => p,
        Err(e) => {
            return Err(e);
        },
    };
    let hash_spec = match file.hash_spec {
        Some(h) => h,
        None => HashSpec::CANONICAL,
    };
    let mut bootstrap_nodes: Vec<NodeId> = Vec::new();
    let mut i: usize = 0;
    while i < file.nodes.len()
        invariant
            i <= file.nodes@.len(),
            bootstrap_nodes@ == dir_ids(dir_views(file.nodes@)).take(i as int),
        decreases file.nodes@.len() - i,
    {
        bootstrap_nodes.push(file.nodes[i].node_id);
        assert(bootstrap_nodes@ =~= dir_ids(dir_views(file.nodes@)).take(i + 1));
        i += 1;
    }
    assert(bootstrap_nodes@ =~= dir_ids(dir_views(file.nodes@)));
    let init = InitConfig {
        p,
        r: file.r,
        bootstrap_nodes,
        meta_voters: file.meta_voters.clone(),
        hash_spec,
    };
    assert(init@ =~= init_config(file@, p));
    match init.validate() {
        Ok(_) => {},
        Err(e) => {
            return Err(e);
        },
    }
    let directory = sort_directory(&file.nodes);
    let ghost views = dir_views(directory@);
    let mut node_ids: Vec<NodeId> = Vec::new();
    let mut j: usize = 0;
    while j < directory.len()
        invariant
            j <= directory@.len(),
            views == dir_views(directory@),
            first_clash(views, j as int) is None,
            node_ids@ == dir_ids(views).take(j as int),
            views == dir_sorted(file@.nodes),
            cluster_id_in(file@.cluster_id) == Ok::<ClusterId, ErrorView>(cluster_id),
            partition_count_of(file@.p) == Ok::<u16, ErrorView>(p),
            init_config(file@, p).defect() is None,
        decreases directory@.len() - j,
    {
        if j > 0 && clash(&directory[j - 1], &directory[j]) {
            proof {
                assert(views[j - 1] == directory@[j - 1]@);
                assert(views[j as int] == directory@[j as int]@);
                assert(first_clash(views, j + 1) == Some(j - 1));
                lemma_clash_stays(views, j + 1, views.len() as int);
            }
            let mut s = prefixed("nodes ", to_decimal(directory[j - 1].node_id as u128).as_str());
            s.append(" and ");
            s.append(to_decimal(directory[j].node_id as u128).as_str());
            s.append(" share an address");
            return Err(Error::Config(s));
        }
        proof {
            if j > 0 {
                assert(views[j - 1] == directory@[j - 1]@);
                assert(views[j as int] == directory@[j as int]@);
            }
        }
        node_ids.push(directory[j].node_id);
        assert(node_ids@ =~= dir_ids(views).take(j + 1));
        j += 1;
    }
    assert(node_ids@ =~= dir_ids(views));
    proof {
        lemma_init_has_nodes(file@, p);
    }
    let data_placements = initial_placements(p, file.r, &node_ids);
    let meta_voters = sort_ids(&file.meta_voters);
    let d = BootstrapDescriptor {
        cluster_id,
        config: ClusterConfig {
            cluster_id,
            protocol_version: PROTOCOL_VERSION,
            p,
            r: file.r,
            hash_spec,
        },
        meta_voters,
        directory,
        data_placements,
    };
    assert(d@ =~= descriptor_in(file@)->Ok_0);
    Ok(d)
}

proof fn lemma_init_has_nodes(f: InitFileView, p: u16)
    requires
        init_config(f, p).defect() is None,
    ensures
        dir_sorted(f.nodes).len() > 0,
{
    lemma_dir_sorted(f.nodes);
}

// -- laws --------------------------------------------------------------------

/// Whether node ids rise along a directory.
pub open spec fn ids_rise(s: Seq<DirEntryView>) -> bool {
    forall|i: int, j: int|
        0 <= i < j < s.len() ==> (#[trigger] s[i]).node_id < (#[trigger] s[j]).node_id
}

spec fn ids_ordered(s: Seq<DirEntryView>) -> bool {
    forall|i: int, j: int|
        0 <= i < j < s.len() ==> (#[trigger] s[i]).node_id <= (#[trigger] s[j]).node_id
}

proof fn lemma_dir_place(s: Seq<DirEntryView>, id: NodeId)
    requires
        ids_ordered(s),
    ensures
        0 <= dir_place(s, id) <= s.len(),
        forall|i: int| 0 <= i < dir_place(s, id) ==> (#[trigger] s[i]).node_id <= id,
        forall|i: int| dir_place(s, id) <= i < s.len() ==> (#[trigger] s[i]).node_id > id,
    decreases s.len(),
{
    if s.len() > 0 {
        if s.last().node_id <= id {
            assert forall|i: int| 0 <= i < s.len() implies (#[trigger] s[i]).node_id <= id by {
                if i < s.len() - 1 {
                    assert(s[i].node_id <= s[s.len() - 1].node_id);
                }
            }
        } else {
            let head = s.drop_last();
            assert(ids_ordered(head)) by {
                assert forall|i: int, j: int| 0 <= i < j < head.len() implies (#[trigger] head[i]).node_id
                    <= (#[trigger] head[j]).node_id by {
                    assert(s[i].node_id <= s[j].node_id);
                }
            }
            lemma_dir_place(head, id);
            assert forall|i: int| 0 <= i < dir_place(s, id) implies (#[trigger] s[i]).node_id
                <= id by {
                assert(head[i] == s[i]);
            }
            assert forall|i: int| dir_place(s, id) <= i < s.len() implies (#[trigger] s[i]).node_id
                > id by {
                if i < head.len() {
                    assert(head[i] == s[i]);
                }
            }
        }
    }
}

proof fn lemma_dir_sorted(s: Seq<DirEntryView>)
    ensures
        dir_sorted(s).len() == s.len(),
        ids_ordered(dir_sorted(s)),
        dir_sorted(s).to_set() == s.to_set(),
    decreases s.len(),
{
    let out = dir_sorted(s);
    if s.len() == 0 {
        assert(out.to_set() =~= s.to_set());
    } else {
        let init = s.drop_last();
        let head = dir_sorted(init);
        let last = s.last();
        lemma_dir_sorted(init);
        let at = dir_place(head, last.node_id);
        lemma_dir_place(head, last.node_id);
        assert forall|i: int, j: int| 0 <= i < j < out.len() implies (#[trigger] out[i]).node_id <= (
        #[trigger] out[j]).node_id by {
            let x = if i < at {
                i
            } else {
                i - 1
            };
            let y = if j < at {
                j
            } else {
                j - 1
            };
            if i != at && j != at {
                assert(out[i] == head[x] && out[j] == head[y]);
                assert(head[x].node_id <= head[y].node_id);
            } else if i == at {
                assert(out[j] == head[y]);
                assert(head[y].node_id > last.node_id);
            } else {
                assert(out[i] == head[x]);
                assert(head[x].node_id <= last.node_id);
            }
        }
        assert forall|e: DirEntryView| out.to_set().contains(e) <==> s.to_set().contains(e) by {
            assert(head.to_set().contains(e) <==> init.to_set().contains(e));
            if out.contains(e) {
                let k = out.index_of(e);
                if k < at {
                    assert(head[k] == e);
                    assert(head.contains(e));
                } else if k > at {
                    assert(head[k - 1] == e);
                    assert(head.contains(e));
                }
                if k != at {
                    assert(init.contains(e));
                    let m = init.index_of(e);
                    assert(s[m] == e);
                } else {
                    assert(s[s.len() - 1] == e);
                }
            }
            if s.contains(e) {
                let k = s.index_of(e);
                if k < init.len() {
                    assert(init[k] == e);
                    assert(head.contains(e));
                    let m = head.index_of(e);
                    if m < at {
                        assert(out[m] == e);
                    } else {
                        assert(out[m + 1] == e);
                    }
                } else {
                    assert(out[at] == e);
                }
            }
        }
        assert(out.to_set() =~= s.to_set());
    }
}

/// A directory whose ids rise is determined by its members.
proof fn lemma_directory_unique(a: Seq<DirEntryView>, b: Seq<DirEntryView>)
    requires
        ids_rise(a),
        ids_rise(b),
        a.to_set() == b.to_set(),
    ensures
        a == b,
    decreases a.len(),
{
    if a.len() == 0 {
        if b.len() > 0 {
            assert(b.to_set().contains(b[0]));
            assert(a.contains(b[0]));
        }
        assert(a =~= b);
    } else {
        assert(a.to_set().contains(a.last()));
        assert(b.contains(a.last()));
        let k = b.index_of(a.last());
        assert(b.to_set().contains(b.last()));
        assert(a.contains(b.last()));
        let j = a.index_of(b.last());
        assert(a[j].node_id <= a.last().node_id) by {
            if j < a.len() - 1 {
                assert(a[j].node_id < a[a.len() - 1].node_id);
            }
        }
        assert(b[k].node_id <= b.last().node_id) by {
            if k < b.len() - 1 {
                assert(b[k].node_id < b[b.len() - 1].node_id);
            }
        }
        assert(a.last() == b.last()) by {
            if k < b.len() - 1 {
                assert(b[k].node_id < b[b.len() - 1].node_id);
            }
        }
        let x = a.drop_last();
        let y = b.drop_last();
        assert(ids_rise(x)) by {
            assert forall|i: int, l: int| 0 <= i < l < x.len() implies (#[trigger] x[i]).node_id < (
            #[trigger] x[l]).node_id by {
                assert(a[i].node_id < a[l].node_id);
            }
        }
        assert(ids_rise(y)) by {
            assert forall|i: int, l: int| 0 <= i < l < y.len() implies (#[trigger] y[i]).node_id < (
            #[trigger] y[l]).node_id by {
                assert(b[i].node_id < b[l].node_id);
            }
        }
        assert forall|e: DirEntryView| x.to_set().contains(e) <==> y.to_set().contains(e) by {
            if x.contains(e) {
                let i = x.index_of(e);
                assert(a[i] == e);
                assert(a[i].node_id < a[a.len() - 1].node_id);
                assert(a.to_set().contains(e));
                assert(b.contains(e));
                let m = b.index_of(e);
                assert(m < b.len() - 1);
                assert(y[m] == e);
            }
            if y.contains(e) {
                let i = y.index_of(e);
                assert(b[i] == e);
                assert(b[i].node_id < b[b.len() - 1].node_id);
                assert(b.to_set().contains(e));
                assert(a.contains(e));
                let m = a.index_of(e);
                assert(m < a.len() - 1);
                assert(x[m] == e);
            }
        }
        assert(x.to_set() =~= y.to_set());
        lemma_directory_unique(x, y);
        assert(a =~= x.push(a.last()));
        assert(b =~= y.push(b.last()));
    }
}

/// Distinct ids in any order become rising ids in the sorted directory.
proof fn lemma_sorted_directory_rises(s: Seq<DirEntryView>)
    requires
        dir_ids(s).no_duplicates(),
    ensures
        ids_rise(dir_sorted(s)),
{
    lemma_dir_sorted(s);
    let out = dir_sorted(s);
    let ids = dir_ids(s);
    let ranked = dir_ids(out);
    lemma_same_ids(s, out);
    lemma_distinct_count(ids);
    lemma_distinct_count(ranked);
    assert(ranked.no_duplicates());
    assert forall|i: int, j: int| 0 <= i < j < out.len() implies (#[trigger] out[i]).node_id < (
    #[trigger] out[j]).node_id by {
        assert(ranked[i] != ranked[j]);
    }
}

proof fn lemma_same_ids(a: Seq<DirEntryView>, b: Seq<DirEntryView>)
    requires
        a.to_set() == b.to_set(),
    ensures
        dir_ids(a).to_set() == dir_ids(b).to_set(),
{
    assert forall|x: NodeId| dir_ids(a).to_set().contains(x) <==> dir_ids(b).to_set().contains(x) by {
        if dir_ids(a).contains(x) {
            let k = dir_ids(a).index_of(x);
            assert(a.to_set().contains(a[k]));
            assert(b.contains(a[k]));
            let m = b.index_of(a[k]);
            assert(dir_ids(b)[m] == x);
        }
        if dir_ids(b).contains(x) {
            let k = dir_ids(b).index_of(x);
            assert(b.to_set().contains(b[k]));
            assert(a.contains(b[k]));
            let m = a.index_of(b[k]);
            assert(dir_ids(a)[m] == x);
        }
    }
    assert(dir_ids(a).to_set() =~= dir_ids(b).to_set());
}

/// The descriptor of a cluster does not depend on the order in which its file
/// lists nodes and voters, so every node derives the same one.
pub proof fn law_descriptor_ignores_file_order(f: InitFileView, g: InitFileView)
    requires
        descriptor_in(f) is Ok,
        g.cluster_id == f.cluster_id,
        g.p == f.p,
        g.r == f.r,
        g.hash_spec == f.hash_spec,
        g.nodes.len() == f.nodes.len(),
        g.nodes.to_set() == f.nodes.to_set(),
        g.meta_voters.len() == f.meta_voters.len(),
        g.meta_voters.to_set() == f.meta_voters.to_set(),
    ensures
        descriptor_in(g) == descriptor_in(f),
{
    let p = partition_count_of(f.p)->Ok_0;
    let a = dir_ids(f.nodes);
    let b = dir_ids(g.nodes);
    lemma_same_ids(f.nodes, g.nodes);
    lemma_distinct_count(a);
    lemma_distinct_count(b);
    lemma_distinct_count(f.meta_voters);
    lemma_distinct_count(g.meta_voters);
    assert(b.no_duplicates());
    assert(b.contains(0) ==> a.contains(0)) by {
        if b.contains(0) {
            assert(b.to_set().contains(0));
            assert(a.to_set().contains(0));
        }
    }
    lemma_dir_sorted(f.nodes);
    lemma_dir_sorted(g.nodes);
    lemma_sorted_directory_rises(f.nodes);
    lemma_sorted_directory_rises(g.nodes);
    lemma_directory_unique(dir_sorted(f.nodes), dir_sorted(g.nodes));
    lemma_sorted(f.meta_voters);
    lemma_sorted(g.meta_voters);
    lemma_sorted_distinct(f.meta_voters);
    lemma_sorted_distinct(g.meta_voters);
    lemma_rising_unique(sorted(f.meta_voters), sorted(g.meta_voters));
}

/// A new cluster's descriptor names each partition once, in order, and gives it
/// as many different nodes of the directory as there are replicas.
pub proof fn law_initial_voters_are_distinct(p: u16, r: u8, nodes: Seq<NodeId>, i: int)
    requires
        nodes.no_duplicates(),
        0 < r <= nodes.len(),
        0 <= i < p,
    ensures
        genesis(p, r, nodes).len() == p,
        genesis(p, r, nodes)[i].0 == i,
        genesis(p, r, nodes)[i].1.len() == r,
        genesis(p, r, nodes)[i].1.no_duplicates(),
        forall|k: int| 0 <= k < r ==> nodes.contains(#[trigger] genesis(p, r, nodes)[i].1[k]),
{
    let n = nodes.len() as int;
    let voters = initial_voters(i, r, nodes);
    assert(genesis(p, r, nodes)[i].1 == voters);
    assert forall|a: int, b: int| 0 <= a < b < voters.len() implies voters[a] != voters[b] by {
        let x = (i + a) % n;
        let y = (i + b) % n;
        assert(x != y) by {
            if x == y {
                vstd::arithmetic::div_mod::lemma_fundamental_div_mod(i + a, n);
                vstd::arithmetic::div_mod::lemma_fundamental_div_mod(i + b, n);
                let q = (i + b) / n - (i + a) / n;
                assert(b - a == n * q) by (nonlinear_arith)
                    requires
                        i + a == n * ((i + a) / n) + x,
                        i + b == n * ((i + b) / n) + y,
                        x == y,
                        q == (i + b) / n - (i + a) / n,
                ;
                assert(false) by (nonlinear_arith)
                    requires
                        b - a == n * q,
                        0 < b - a < n,
                        n > 0,
                ;
            }
        }
        assert(0 <= x < n && 0 <= y < n);
    }
    assert forall|k: int| 0 <= k < r implies nodes.contains(#[trigger] voters[k]) by {
        assert(0 <= (i + k) % n < n);
        assert(voters[k] == nodes[(i + k) % n]);
    }
}

/// The partitions of a fresh cluster go round the nodes: the first begins with the
/// first node, and each begins one node after the one before it.
pub proof fn law_partitions_go_round(p: u16, r: u8, nodes: Seq<NodeId>, i: int, k: int)
    requires
        nodes.len() > 0,
        r <= nodes.len(),
        0 <= i < p,
        0 <= k < r,
    ensures
        genesis(p, r, nodes)[i].0 == i,
        i == 0 ==> genesis(p, r, nodes)[i].1[k] == nodes[k],
        i + 1 < p && k + 1 < r ==> genesis(p, r, nodes)[i + 1].1[k] == genesis(p, r, nodes)[i].1[k
            + 1],
        i + 1 < p && k + 1 == r ==> genesis(p, r, nodes)[i + 1].1[k] == nodes[(i + r)
            % nodes.len() as int],
{
    if i == 0 {
        assert(k % nodes.len() as int == k) by (nonlinear_arith)
            requires
                0 <= k < nodes.len(),
        ;
    }
    assert((i + 1) + k == i + (k + 1));
}

/// Two neighbours of a directory clash if and only if one of their four addresses
/// occurs twice.
pub proof fn law_addresses_clash(a: DirEntryView, b: DirEntryView)
    ensures
        !addresses_clash(a, b) <==> seq![
            a.control_addr,
            a.bulk_addr,
            b.control_addr,
            b.bulk_addr,
        ].no_duplicates(),
{
    let all = seq![a.control_addr, a.bulk_addr, b.control_addr, b.bulk_addr];
    assert(all[0] == a.control_addr && all[1] == a.bulk_addr && all[2] == b.control_addr && all[3]
        == b.bulk_addr);
    if all.no_duplicates() {
        assert(all[0] != all[1]);
        assert(all[0] != all[2]);
        assert(all[0] != all[3]);
        assert(all[1] != all[2]);
        assert(all[1] != all[3]);
        assert(all[2] != all[3]);
    }
}

/// The clash reported is the first between neighbours, and there is none only where no
/// neighbours clash.
pub proof fn law_first_clash(s: Seq<DirEntryView>, n: int)
    requires
        0 <= n <= s.len(),
    ensures
        match first_clash(s, n) {
            Some(i) => 0 <= i < n - 1 && addresses_clash(s[i], s[i + 1]) && forall|j: int|
                0 <= j < i ==> !#[trigger] neighbours_clash(s, j),
            None => forall|j: int| 0 <= j < n - 1 ==> !#[trigger] neighbours_clash(s, j),
        },
    decreases n,
{
    if n >= 2 {
        law_first_clash(s, n - 1);
        if first_clash(s, n - 1) is None && !addresses_clash(s[n - 2], s[n - 1]) {
            assert forall|j: int| 0 <= j < n - 1 implies !#[trigger] neighbours_clash(s, j) by {}
        }
    }
}

/// Whether an entry clashes with the next.
pub open spec fn neighbours_clash(s: Seq<DirEntryView>, j: int) -> bool {
    addresses_clash(s[j], s[j + 1])
}

/// A founding file is accepted if and only if its cluster id and partition count can
/// be read, its input is sound and no neighbours of its directory, in the order of
/// their ids, clash. The descriptor then says what the file does.
pub proof fn law_founding_files_are_accepted(f: InitFileView)
    ensures
        ({
            let id = cluster_id_in(f.cluster_id);
            let p = partition_count_of(f.p);
            let directory = dir_sorted(f.nodes);
            let d = descriptor_in(f);
            &&& d is Ok <==> id is Ok && p is Ok && init_config(f, p->Ok_0).defect() is None
                && first_clash(directory, directory.len() as int) is None
            &&& d matches Ok(desc) ==> {
                &&& Ok::<ClusterId, ErrorView>(desc.cluster_id) == id
                &&& desc.config.cluster_id == desc.cluster_id
                &&& desc.config.protocol_version == PROTOCOL_VERSION
                &&& Ok::<u16, ErrorView>(desc.config.p) == p
                &&& desc.config.r == f.r
                &&& f.hash_spec is Some ==> desc.config.hash_spec == f.hash_spec->0
                &&& desc.meta_voters.to_set() == f.meta_voters.to_set()
                &&& forall|i: int, j: int|
                    0 <= i < j < desc.meta_voters.len() ==> desc.meta_voters[i]
                        <= desc.meta_voters[j]
                &&& desc.directory == directory
                &&& desc.data_placements == genesis(desc.config.p, f.r, dir_ids(directory))
            }
        }),
{
    lemma_sorted(f.meta_voters);
}

/// A hexadecimal prefix is dropped where it stands, and nothing else is.
pub proof fn law_prefix_is_optional(s: Seq<char>)
    ensures
        unprefixed(seq!['0', 'x'] + s) == s,
        !(s.len() >= 2 && s[0] == '0' && s[1] == 'x') ==> unprefixed(s) == s,
{
    let t = seq!['0', 'x'] + s;
    assert(t.skip(2) =~= s);
}

/// A directory is sorted by its ids, and holds what it held.
pub proof fn law_directories_are_sorted(s: Seq<DirEntryView>)
    ensures
        dir_sorted(s).to_multiset() == s.to_multiset(),
        forall|i: int, j: int|
            0 <= i < j < dir_sorted(s).len() ==> (#[trigger] dir_sorted(s)[i]).node_id <= (
            #[trigger] dir_sorted(s)[j]).node_id,
    decreases s.len(),
{
    broadcast use vstd::seq_lib::group_to_multiset_ensures;

    if s.len() > 0 {
        let init = s.drop_last();
        let last = s.last();
        law_directories_are_sorted(init);
        let rest = dir_sorted(init);
        let k = dir_place(rest, last.node_id);
        lemma_dir_place_bounds(rest, last.node_id);
        assert(s =~= init.push(last));
        let all = rest.insert(k, last);
        assert(dir_sorted(s) == all);
        assert forall|i: int, j: int| 0 <= i < j < all.len() implies (#[trigger] all[i]).node_id <= (
        #[trigger] all[j]).node_id by {
            if j < k {
                assert(rest[i].node_id <= rest[j].node_id);
            } else if j == k {
                if i < k - 1 {
                    assert(rest[i].node_id <= rest[k - 1].node_id);
                }
            } else if i < k {
                assert(rest[i].node_id <= rest[j - 1].node_id);
            } else if i == k {
                assert(rest[j - 1].node_id > last.node_id);
            } else {
                assert(rest[i - 1].node_id <= rest[j - 1].node_id);
            }
        }
    }
}

proof fn lemma_dir_place_bounds(s: Seq<DirEntryView>, id: NodeId)
    ensures
        0 <= dir_place(s, id) <= s.len(),
        dir_place(s, id) > 0 ==> s[dir_place(s, id) - 1].node_id <= id,
        forall|j: int| dir_place(s, id) <= j < s.len() ==> (#[trigger] s[j]).node_id > id,
    decreases s.len(),
{
    if s.len() > 0 && s.last().node_id > id {
        let init = s.drop_last();
        lemma_dir_place_bounds(init, id);
        assert forall|j: int| dir_place(s, id) <= j < s.len() implies (#[trigger] s[j]).node_id
            > id by {
            if j < init.len() {
                assert(init[j] == s[j]);
            }
        }
    }
}

} // verus!
