//! Live routing and the live search catalog: answered from local state where it
//! is complete, from peers otherwise, and from the descriptor as a last resort.
use crate::api::ops::{RoutingInfo, RoutingView, SearchCatalogReply};
use crate::error::Error;
use crate::meta::bootstrap::{BootstrapDescriptor, DescriptorView, DirEntryView};
use crate::meta::node::MetaRead;
use crate::placement::part_views;
use crate::runtime::rebalance::{
    known_prefix, known_views, law_planning_waits_for_every_placement,
};
use crate::search::{record_views, SearchIndexRecord};
use crate::transport::{Envelope, MsgType};
use crate::types::{
    entry_views, ClusterId, LogId, NodeDirectoryEntry, NodeEntryView, NodeId, NodeState, Placement,
    PlacementView,
};
use vstd::prelude::*;

verus! {

// -- routing -------------------------------------------------------------------

/// The directory that a descriptor gives: every node is taken for active.
pub open spec fn initial_directory(directory: Seq<DirEntryView>) -> Seq<NodeEntryView> {
    directory.map_values(
        |d: DirEntryView|
            NodeEntryView {
                node_id: d.node_id,
                control_addr: d.control_addr,
                bulk_addr: d.bulk_addr,
                state: NodeState::Active,
                incarnation: 0,
            },
    )
}

/// The placements that a descriptor gives.
pub open spec fn initial_placements(placements: Seq<(u16, Seq<NodeId>)>) -> Seq<
    (u16, PlacementView),
> {
    placements.map_values(
        |p: (u16, Seq<NodeId>)|
            (
                p.0,
                PlacementView {
                    voters: p.1,
                    voters_log_id: LogId { term: 0, index: 0 },
                    move_plan: None,
                },
            ),
    )
}

/// The routing that a descriptor gives.
pub open spec fn descriptor_routing(desc: DescriptorView) -> RoutingView {
    RoutingView {
        cluster_id: desc.cluster_id,
        p: desc.config.p,
        hash_spec: desc.config.hash_spec,
        directory: initial_directory(desc.directory),
        placements: initial_placements(desc.data_placements),
    }
}

/// The routing that local state gives: nothing while the directory is empty or
/// any partition's placement is missing.
pub open spec fn local_routing(
    fallback: RoutingView,
    directory: Option<Seq<NodeEntryView>>,
    placements: Seq<Option<PlacementView>>,
) -> Option<RoutingView> {
    match directory {
        Some(d) => if d.len() > 0 && placements.len() == fallback.p && known_prefix(placements).len()
            == placements.len() {
            Some(RoutingView { directory: d, placements: known_prefix(placements), ..fallback })
        } else {
            None
        },
        None => None,
    }
}

/// What a routing query leads to.
pub enum RoutingStep {
    Answer(Option<RoutingInfo>),
    AskPeers,
}

/// A node's source of routing.
pub struct LiveRouting {
    pub fallback: RoutingInfo,
    pub local_control: String,
}

impl LiveRouting {
    pub fn from_descriptor(desc: &BootstrapDescriptor, local_control: String) -> (l: LiveRouting)
        ensures
            l.fallback@ == descriptor_routing(desc@),
            l.local_control@ == local_control@,
    {
        let mut directory: Vec<NodeDirectoryEntry> = Vec::new();
        let ghost want = initial_directory(desc@.directory);
        let mut i: usize = 0;
        assert(entry_views(directory@) =~= want.take(0));
        while i < desc.directory.len()
            invariant
                i <= desc.directory@.len(),
                want == initial_directory(desc@.directory),
                entry_views(directory@) == want.take(i as int),
            decreases desc.directory@.len() - i,
        {
            let d = &desc.directory[i];
            let ghost before = entry_views(directory@);
            directory.push(
                NodeDirectoryEntry {
                    node_id: d.node_id,
                    control_addr: d.control_addr.clone(),
                    bulk_addr: d.bulk_addr.clone(),
                    state: NodeState::Active,
                    incarnation: 0,
                },
            );
            proof {
                assert(desc@.directory[i as int] == d@);
                assert(entry_views(directory@) =~= before.push(want[i as int]));
                assert(entry_views(directory@) =~= want.take(i + 1));
            }
            i += 1;
        }
        assert(want.take(i as int) =~= want);
        let mut placements: Vec<(u16, Placement)> = Vec::new();
        let ghost placed = initial_placements(desc@.data_placements);
        let mut k: usize = 0;
        assert(part_views(placements@) =~= placed.take(0));
        while k < desc.data_placements.len()
            invariant
                k <= desc.data_placements@.len(),
                placed == initial_placements(desc@.data_placements),
                part_views(placements@) == placed.take(k as int),
            decreases desc.data_placements@.len() - k,
        {
            let ghost before = part_views(placements@);
            let partition: u16 = desc.data_placements[k].0;
            let voters = desc.data_placements[k].1.clone();
            placements.push(
                (partition, Placement { voters, voters_log_id: LogId::new(0, 0), move_plan: None }),
            );
            proof {
                assert(desc@.data_placements[k as int] == (
                    desc.data_placements@[k as int].0,
                    desc.data_placements@[k as int].1@,
                ));
                assert(part_views(placements@) =~= before.push(placed[k as int]));
                assert(part_views(placements@) =~= placed.take(k + 1));
            }
            k += 1;
        }
        assert(placed.take(k as int) =~= placed);
        LiveRouting {
            fallback: RoutingInfo {
                cluster_id: desc.cluster_id,
                p: desc.config.p,
                hash_spec: desc.config.hash_spec,
                directory,
                placements,
            },
            local_control,
        }
    }

    /// The routing that local state gives, if it is complete: `directory` is
    /// absent where the meta group does not run here or cannot be read, and
    /// `placements` holds what is known of each partition.
    pub fn local(
        &self,
        directory: Option<Vec<NodeDirectoryEntry>>,
        placements: Vec<Option<Placement>>,
    ) -> (r: Option<RoutingInfo>)
        ensures
            match (
                r,
                local_routing(
                    self.fallback@,
                    match directory {
                        Some(d) => Some(entry_views(d@)),
                        None => None,
                    },
                    known_views(placements@),
                ),
            ) {
                (Some(info), Some(v)) => info@ == v,
                (None, None) => true,
                _ => false,
            },
    {
        let directory = match directory {
            Some(d) => d,
            None => {
                return None;
            },
        };
        if directory.len() == 0 || placements.len() != self.fallback.p as usize {
            return None;
        }
        let ghost all = known_views(placements@);
        let mut parts: Vec<(u16, Placement)> = Vec::new();
        let mut i: usize = 0;
        proof {
            assert(all.take(0) =~= Seq::<Option<PlacementView>>::empty());
            assert(part_views(parts@) =~= known_prefix(all.take(0)));
        }
        while i < placements.len()
            invariant
                i <= placements@.len() <= u16::MAX,
                all == known_views(placements@),
                parts@.len() == i,
                part_views(parts@) == known_prefix(all.take(i as int)),
            decreases placements@.len() - i,
        {
            proof {
                assert(all.take(i + 1).drop_last() =~= all.take(i as int));
                assert(all.take(i + 1).last() == all[i as int]);
            }
            match &placements[i] {
                None => {
                    proof {
                        crate::runtime::rebalance::lemma_prefix_stops(all, i as int);
                    }
                    return None;
                },
                Some(p) => {
                    let ghost before = part_views(parts@);
                    parts.push((i as u16, p.duplicate()));
                    assert(part_views(parts@) =~= before.push((i as u16, p@)));
                },
            }
            i += 1;
        }
        assert(all.take(i as int) =~= all);
        Some(
            RoutingInfo {
                cluster_id: self.fallback.cluster_id,
                p: self.fallback.p,
                hash_spec: self.fallback.hash_spec,
                directory,
                placements: parts,
            },
        )
    }

    /// What a routing query leads to. A peer's query is answered locally or not
    /// at all, so that no query goes round in circles.
    pub fn routing(&self, local: Option<RoutingInfo>, local_only: bool) -> (step: RoutingStep)
        ensures
            match local {
                Some(info) => step == RoutingStep::Answer(Some(info)),
                None => if local_only {
                    step == RoutingStep::Answer(None)
                } else {
                    step is AskPeers
                },
            },
    {
        match local {
            Some(info) => RoutingStep::Answer(Some(info)),
            None => if local_only {
                RoutingStep::Answer(None)
            } else {
                RoutingStep::AskPeers
            },
        }
    }

    /// Whether a peer at an address is asked: every one but this node.
    pub fn asks(&self, addr: &String) -> (yes: bool)
        ensures
            yes == (addr@ != self.local_control@),
    {
        *addr != self.local_control
    }

    /// Whether a peer's answer is used: it must be of this cluster, and so must
    /// the routing that it holds.
    pub fn usable(&self, reply: &Envelope, info: Option<&RoutingInfo>) -> (yes: bool)
        ensures
            yes == (reply.cluster_id == self.fallback.cluster_id && reply.msg_type is MetaQuery
                && match info {
                Some(i) => i.cluster_id == self.fallback.cluster_id,
                None => false,
            }),
    {
        reply.cluster_id == self.fallback.cluster_id && reply.msg_type == MsgType::MetaQuery
            && match info {
            Some(i) => i.cluster_id == self.fallback.cluster_id,
            None => false,
        }
    }
}

// -- the search catalog ----------------------------------------------------------

/// What a catalog query leads to.
pub enum CatalogStep<T> {
    Answer(T),
    Fail(String),
    AskPeers,
}

/// What a query for one index leads to. Only a confirmed local read answers it;
/// a peer's query goes no further, and learns why a local read failed.
pub fn index_step<T>(read: Option<Result<MetaRead<T>, Error>>, local_only: bool) -> (step:
    CatalogStep<T>)
    ensures
        match read {
            Some(Ok(MetaRead::Value(v))) => step == CatalogStep::Answer(v),
            Some(Err(e)) => if local_only {
                step matches CatalogStep::Fail(text) && text@ == e@.text()
            } else {
                step is AskPeers
            },
            _ => if local_only {
                step matches CatalogStep::Fail(text) && text@
                    == "local node is not the current meta leader"@
            } else {
                step is AskPeers
            },
        },
{
    match read {
        Some(Ok(MetaRead::Value(v))) => CatalogStep::Answer(v),
        Some(Err(e)) => if local_only {
            CatalogStep::Fail(e.to_text())
        } else {
            CatalogStep::AskPeers
        },
        _ => if local_only {
            CatalogStep::Fail("local node is not the current meta leader".to_owned())
        } else {
            CatalogStep::AskPeers
        },
    }
}

/// What a query for the whole catalog leads to.
pub fn catalog_step<T>(read: Option<Result<MetaRead<T>, Error>>, local_only: bool) -> (step:
    CatalogStep<T>)
    ensures
        match read {
            Some(Ok(MetaRead::Value(v))) => step == CatalogStep::Answer(v),
            _ => if local_only {
                step matches CatalogStep::Fail(text) && text@
                    == "local node is not the current meta leader"@
            } else {
                step is AskPeers
            },
        },
{
    match read {
        Some(Ok(MetaRead::Value(v))) => CatalogStep::Answer(v),
        _ => if local_only {
            CatalogStep::Fail("local node is not the current meta leader".to_owned())
        } else {
            CatalogStep::AskPeers
        },
    }
}

/// Whether a peer's envelope can be an answer to a catalog query.
pub fn catalog_answers(cluster_id: ClusterId, reply: &Envelope) -> (yes: bool)
    ensures
        yes == (reply.cluster_id == cluster_id && reply.msg_type is SearchCatalogQuery),
{
    reply.cluster_id == cluster_id && reply.msg_type == MsgType::SearchCatalogQuery
}

/// The first reply with a record.
pub open spec fn first_record(replies: Seq<SearchCatalogReply>) -> Option<int>
    decreases replies.len(),
{
    if replies.len() == 0 {
        None
    } else {
        match first_record(replies.drop_last()) {
            Some(i) => Some(i),
            None => if replies.last() is Record {
                Some(replies.len() - 1)
            } else {
                None
            },
        }
    }
}

/// The first reply with a catalog.
pub open spec fn first_catalog(replies: Seq<SearchCatalogReply>) -> Option<int>
    decreases replies.len(),
{
    if replies.len() == 0 {
        None
    } else {
        match first_catalog(replies.drop_last()) {
            Some(i) => Some(i),
            None => if replies.last() is Catalog {
                Some(replies.len() - 1)
            } else {
                None
            },
        }
    }
}

proof fn lemma_record_stays(replies: Seq<SearchCatalogReply>, n: int, i: int)
    requires
        0 <= n <= replies.len(),
        first_record(replies.take(n)) == Some(i),
    ensures
        first_record(replies) == Some(i),
    decreases replies.len() - n,
{
    if n == replies.len() {
        assert(replies.take(n) =~= replies);
    } else {
        assert(replies.take(n + 1).drop_last() =~= replies.take(n));
        lemma_record_stays(replies, n + 1, i);
    }
}

proof fn lemma_catalog_stays(replies: Seq<SearchCatalogReply>, n: int, i: int)
    requires
        0 <= n <= replies.len(),
        first_catalog(replies.take(n)) == Some(i),
    ensures
        first_catalog(replies) == Some(i),
    decreases replies.len() - n,
{
    if n == replies.len() {
        assert(replies.take(n) =~= replies);
    } else {
        assert(replies.take(n + 1).drop_last() =~= replies.take(n));
        lemma_catalog_stays(replies, n + 1, i);
    }
}

/// The record that peers gave: that of the first that had an answer.
pub fn pick_record(replies: &Vec<SearchCatalogReply>) -> (r: Result<
    Option<SearchIndexRecord>,
    String,
>)
    ensures
        match first_record(replies@) {
            Some(i) => r matches Ok(found) && match (found, replies@[i]->Record_0) {
                (Some(a), Some(b)) => a@ == b@,
                (None, None) => true,
                _ => false,
            },
            None => r matches Err(text) && text@
                == "no meta leader answered the search catalog query"@,
        },
{
    let mut i: usize = 0;
    assert(replies@.take(0) =~= Seq::<SearchCatalogReply>::empty());
    while i < replies.len()
        invariant
            i <= replies@.len(),
            first_record(replies@.take(i as int)) is None,
        decreases replies@.len() - i,
    {
        proof {
            assert(replies@.take(i + 1).drop_last() =~= replies@.take(i as int));
            assert(replies@.take(i + 1).last() == replies@[i as int]);
        }
        if let SearchCatalogReply::Record(found) = &replies[i] {
            proof {
                lemma_record_stays(replies@, i + 1, i as int);
            }
            return match found {
                Some(record) => Ok(Some(record.duplicate())),
                None => Ok(None),
            };
        }
        i += 1;
    }
    assert(replies@.take(i as int) =~= replies@);
    Err("no meta leader answered the search catalog query".to_owned())
}

/// The catalog that peers gave: that of the first that had an answer.
pub fn pick_catalog(replies: &Vec<SearchCatalogReply>) -> (r: Result<
    Vec<SearchIndexRecord>,
    String,
>)
    ensures
        match first_catalog(replies@) {
            Some(i) => r matches Ok(records) && record_views(records@) == record_views(
                replies@[i]->Catalog_0@,
            ),
            None => r matches Err(text) && text@
                == "no meta leader answered the search catalog query"@,
        },
{
    let mut i: usize = 0;
    assert(replies@.take(0) =~= Seq::<SearchCatalogReply>::empty());
    while i < replies.len()
        invariant
            i <= replies@.len(),
            first_catalog(replies@.take(i as int)) is None,
        decreases replies@.len() - i,
    {
        proof {
            assert(replies@.take(i + 1).drop_last() =~= replies@.take(i as int));
            assert(replies@.take(i + 1).last() == replies@[i as int]);
        }
        if let SearchCatalogReply::Catalog(records) = &replies[i] {
            proof {
                lemma_catalog_stays(replies@, i + 1, i as int);
            }
            return Ok(copy_records(records));
        }
        i += 1;
    }
    assert(replies@.take(i as int) =~= replies@);
    Err("no meta leader answered the search catalog query".to_owned())
}

fn copy_records(records: &Vec<SearchIndexRecord>) -> (out: Vec<SearchIndexRecord>)
    ensures
        record_views(out@) == record_views(records@),
{
    let mut out: Vec<SearchIndexRecord> = Vec::new();
    let mut i: usize = 0;
    while i < records.len()
        invariant
            i <= records@.len(),
            out@.len() == i,
            forall|k: int| 0 <= k < i ==> (#[trigger] out@[k])@ == records@[k]@,
        decreases records@.len() - i,
    {
        out.push(records[i].duplicate());
        i += 1;
    }
    assert(record_views(out@) =~= record_views(records@));
    out
}

// -- laws ------------------------------------------------------------------------

/// A partial view is never advertised: local routing has the placement of every
/// partition, under its number.
pub proof fn law_local_routing_is_complete(
    fallback: RoutingView,
    directory: Option<Seq<NodeEntryView>>,
    placements: Seq<Option<PlacementView>>,
)
    requires
        local_routing(fallback, directory, placements) is Some,
    ensures
        ({
            let info = local_routing(fallback, directory, placements)->0;
            &&& info.cluster_id == fallback.cluster_id
            &&& info.placements.len() == fallback.p
            &&& forall|i: int|
                0 <= i < fallback.p ==> (#[trigger] info.placements[i]).0 == i
                    && placements[i] == Some(info.placements[i].1)
        }),
{
    let info = local_routing(fallback, directory, placements)->0;
    assert forall|i: int| 0 <= i < fallback.p implies (#[trigger] info.placements[i]).0 == i
        && placements[i] == Some(info.placements[i].1) by {
        crate::runtime::rebalance::lemma_complete(placements, i);
        lemma_numbered(placements, i);
    }
}

proof fn lemma_numbered(placements: Seq<Option<PlacementView>>, i: int)
    requires
        placements.len() <= u16::MAX,
        0 <= i < known_prefix(placements).len(),
    ensures
        known_prefix(placements)[i].0 == i,
    decreases placements.len(),
{
    if placements.len() > 0 {
        let head = placements.drop_last();
        if i < known_prefix(head).len() {
            lemma_numbered(head, i);
        } else {
            crate::runtime::rebalance::lemma_prefix_len(head);
        }
    }
}

/// A node routes by its own records if and only if it knows a directory that is not
/// empty and the placement of every partition.
pub proof fn law_local_routing_needs_everything(
    fallback: RoutingView,
    directory: Option<Seq<NodeEntryView>>,
    placements: Seq<Option<PlacementView>>,
)
    requires
        placements.len() <= u16::MAX,
    ensures
        local_routing(fallback, directory, placements) is Some <==> {
            &&& directory is Some && directory->0.len() > 0
            &&& placements.len() == fallback.p
            &&& forall|i: int| 0 <= i < placements.len() ==> (#[trigger] placements[i]) is Some
        },
        local_routing(fallback, directory, placements) matches Some(info) ==> info.directory
            == directory->0 && info.p == fallback.p && info.hash_spec == fallback.hash_spec
            && info.cluster_id == fallback.cluster_id,
{
    law_planning_waits_for_every_placement(Seq::empty(), placements, 0);
}

/// What a fresh cluster routes by: every listed node, active and of no incarnation
/// yet, and every listed partition on its voters with no move under way.
pub proof fn law_founding_routing(desc: DescriptorView, i: int, j: int)
    requires
        0 <= i < desc.directory.len(),
        0 <= j < desc.data_placements.len(),
    ensures
        ({
            let r = descriptor_routing(desc);
            let d = desc.directory[i];
            let e = r.directory[i];
            let p = r.placements[j];
            &&& r.cluster_id == desc.cluster_id && r.p == desc.config.p && r.hash_spec
                == desc.config.hash_spec
            &&& r.directory.len() == desc.directory.len() && r.placements.len()
                == desc.data_placements.len()
            &&& e.node_id == d.node_id && e.control_addr == d.control_addr && e.bulk_addr
                == d.bulk_addr && e.state == NodeState::Active && e.incarnation == 0
            &&& p.0 == desc.data_placements[j].0 && p.1.voters == desc.data_placements[j].1
                && p.1.move_plan is None && p.1.voters_log_id == (LogId { term: 0, index: 0 })
        }),
{
}

/// Of the peers' answers the first that holds a record is taken, and the first that
/// holds a catalog.
pub proof fn law_first_answer_is_taken(replies: Seq<SearchCatalogReply>)
    ensures
        match first_record(replies) {
            Some(i) => 0 <= i < replies.len() && replies[i] is Record && forall|j: int|
                0 <= j < i ==> !((#[trigger] replies[j]) is Record),
            None => forall|j: int| 0 <= j < replies.len() ==> !((#[trigger] replies[j]) is Record),
        },
        match first_catalog(replies) {
            Some(i) => 0 <= i < replies.len() && replies[i] is Catalog && forall|j: int|
                0 <= j < i ==> !((#[trigger] replies[j]) is Catalog),
            None => forall|j: int| 0 <= j < replies.len() ==> !((#[trigger] replies[j]) is Catalog),
        },
    decreases replies.len(),
{
    if replies.len() > 0 {
        let init = replies.drop_last();
        law_first_answer_is_taken(init);
        assert forall|j: int| 0 <= j < init.len() implies #[trigger] replies[j] == init[j] by {}
    }
}

} // verus!
