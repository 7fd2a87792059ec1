//! The meta group's replicated records and their elementary changes.
use crate::assoc::{del, get, holds_key, lemma_rank_is, lemma_slot_is, put, put_ranked, rank, slot};
use crate::keyspace::{
    fits_frame, meta_cluster_bytes, meta_cluster_key, meta_node_bytes, meta_node_key,
    meta_placement_bytes, meta_placement_key, meta_search_index_bytes, meta_search_index_key,
    meta_search_ready_bytes, meta_search_ready_key,
};
use crate::search::{RecordView, SearchIndexReady, SearchIndexRecord};
use crate::types::{
    ClusterConfig, GroupId, LogId, NodeDirectoryEntry, NodeEntryView, NodeId, Placement,
    PlacementView,
};
use vstd::prelude::*;

verus! {

/// What a readiness claim is stored under: index, generation, group, replica.
pub type ReadyKey = (Seq<char>, u64, GroupId, NodeId);

/// The meta group's state.
pub struct MetaState {
    pub cluster: Option<ClusterConfig>,
    pub nodes: Vec<NodeDirectoryEntry>,
    pub placements: Vec<(GroupId, Placement)>,
    pub indexes: Vec<SearchIndexRecord>,
    pub ready: Vec<(String, SearchIndexReady)>,
    pub last_applied: Option<LogId>,
}

#[verifier::ext_equal]
pub struct MetaView {
    pub cluster: Option<ClusterConfig>,
    /// The directory, in node order.
    pub nodes: Seq<(NodeId, NodeEntryView)>,
    pub placements: Seq<(GroupId, PlacementView)>,
    pub indexes: Seq<(Seq<char>, RecordView)>,
    pub ready: Seq<(ReadyKey, SearchIndexReady)>,
    pub last_applied: Option<LogId>,
}

/// The key of a claim about the index `name`.
pub open spec fn ready_key(name: Seq<char>, claim: SearchIndexReady) -> ReadyKey {
    (name, claim.generation, claim.group, claim.node_id)
}

impl View for MetaState {
    type V = MetaView;

    open spec fn view(&self) -> MetaView {
        MetaView {
            cluster: self.cluster,
            nodes: self.nodes@.map_values(|e: NodeDirectoryEntry| (e.node_id, e@)),
            placements: self.placements@.map_values(|e: (GroupId, Placement)| (e.0, e.1@)),
            indexes: self.indexes@.map_values(|r: SearchIndexRecord| (r.name@, r@)),
            ready: self.ready@.map_values(
                |e: (String, SearchIndexReady)| (ready_key(e.0@, e.1), e.1),
            ),
            last_applied: self.last_applied,
        }
    }
}

impl MetaView {
    /// A state with no records.
    pub open spec fn empty() -> MetaView {
        MetaView {
            cluster: None,
            nodes: Seq::empty(),
            placements: Seq::empty(),
            indexes: Seq::empty(),
            ready: Seq::empty(),
            last_applied: None,
        }
    }

    /// Every record stands under its own key, once, and the directory is in
    /// node order.
    pub open spec fn well_formed(self) -> bool {
        &&& crate::assoc::keys_rise(self.nodes)
        &&& forall|i: int|
            0 <= i < self.nodes.len() ==> (#[trigger] self.nodes[i]).1.node_id == self.nodes[i].0
        &&& crate::assoc::keys_distinct(self.placements)
        &&& crate::assoc::keys_distinct(self.indexes)
        &&& forall|i: int|
            0 <= i < self.indexes.len() ==> (#[trigger] self.indexes[i]).1.name
                == self.indexes[i].0
        &&& crate::assoc::keys_distinct(self.ready)
        &&& forall|i: int|
            0 <= i < self.ready.len() ==> (#[trigger] self.ready[i]).0 == ready_key(
                self.ready[i].0.0,
                self.ready[i].1,
            )
    }

    pub open spec fn node(self, id: NodeId) -> Option<NodeEntryView> {
        get(self.nodes, id)
    }

    pub open spec fn placement(self, group: GroupId) -> Option<PlacementView> {
        get(self.placements, group)
    }

    pub open spec fn index(self, name: Seq<char>) -> Option<RecordView> {
        get(self.indexes, name)
    }

    pub open spec fn claim(self, key: ReadyKey) -> Option<SearchIndexReady> {
        get(self.ready, key)
    }

    /// The directory as a plain listing.
    pub open spec fn directory(self) -> Seq<NodeEntryView> {
        self.nodes.map_values(|e: (NodeId, NodeEntryView)| e.1)
    }
}

/// An elementary change of the meta state.
#[derive(Debug, Clone, PartialEq, Eq)]
pub enum MetaMutation {
    PutCluster { config: ClusterConfig },
    PutNode { entry: NodeDirectoryEntry },
    PutPlacement { group: GroupId, placement: Placement },
    PutIndex { record: SearchIndexRecord },
    DeleteIndex { name: String },
    PutReady { name: String, claim: SearchIndexReady },
    DeleteReady { name: String, generation: u64, group: GroupId, node_id: NodeId },
}

#[verifier::ext_equal]
pub enum MutationView {
    PutCluster { config: ClusterConfig },
    PutNode { entry: NodeEntryView },
    PutPlacement { group: GroupId, placement: PlacementView },
    PutIndex { record: RecordView },
    DeleteIndex { name: Seq<char> },
    PutReady { name: Seq<char>, claim: SearchIndexReady },
    DeleteReady { key: ReadyKey },
}

impl View for MetaMutation {
    type V = MutationView;

    open spec fn view(&self) -> MutationView {
        match self {
            MetaMutation::PutCluster { config } => MutationView::PutCluster { config: *config },
            MetaMutation::PutNode { entry } => MutationView::PutNode { entry: entry@ },
            MetaMutation::PutPlacement { group, placement } => MutationView::PutPlacement {
                group: *group,
                placement: placement@,
            },
            MetaMutation::PutIndex { record } => MutationView::PutIndex { record: record@ },
            MetaMutation::DeleteIndex { name } => MutationView::DeleteIndex { name: name@ },
            MetaMutation::PutReady { name, claim } => MutationView::PutReady {
                name: name@,
                claim: *claim,
            },
            MetaMutation::DeleteReady { name, generation, group, node_id } => {
                MutationView::DeleteReady { key: (name@, *generation, *group, *node_id) }
            },
        }
    }
}

impl MutationView {
    /// The state after the change.
    pub open spec fn after(self, s: MetaView) -> MetaView {
        match self {
            MutationView::PutCluster { config } => MetaView { cluster: Some(config), ..s },
            MutationView::PutNode { entry } => MetaView {
                nodes: put_ranked(s.nodes, entry.node_id, entry),
                ..s
            },
            MutationView::PutPlacement { group, placement } => MetaView {
                placements: put(s.placements, group, placement),
                ..s
            },
            MutationView::PutIndex { record } => MetaView {
                indexes: put(s.indexes, record.name, record),
                ..s
            },
            MutationView::DeleteIndex { name } => MetaView { indexes: del(s.indexes, name), ..s },
            MutationView::PutReady { name, claim } => MetaView {
                ready: put(s.ready, ready_key(name, claim), claim),
                ..s
            },
            MutationView::DeleteReady { key } => MetaView { ready: del(s.ready, key), ..s },
        }
    }

    /// The key of the record that the change touches.
    pub open spec fn key_bytes(self) -> Seq<u8> {
        match self {
            MutationView::PutCluster { .. } => meta_cluster_bytes(),
            MutationView::PutNode { entry } => meta_node_bytes(entry.node_id),
            MutationView::PutPlacement { group, .. } => meta_placement_bytes(group),
            MutationView::PutIndex { record } => meta_search_index_bytes(record.name),
            MutationView::DeleteIndex { name } => meta_search_index_bytes(name),
            MutationView::PutReady { name, claim } => meta_search_ready_bytes(
                name,
                claim.generation,
                claim.group,
                claim.node_id,
            ),
            MutationView::DeleteReady { key } => meta_search_ready_bytes(
                key.0,
                key.1,
                key.2,
                key.3,
            ),
        }
    }

    /// Whether an index name inside the key fits its frame.
    pub open spec fn key_fits(self) -> bool {
        match self {
            MutationView::PutIndex { record } => fits_frame(record.name),
            MutationView::DeleteIndex { name } => fits_frame(name),
            MutationView::PutReady { name, .. } => fits_frame(name),
            MutationView::DeleteReady { key } => fits_frame(key.0),
            _ => true,
        }
    }
}

/// The state after a run of changes.
pub open spec fn after_all(s: MetaView, muts: Seq<MutationView>) -> MetaView
    decreases muts.len(),
{
    if muts.len() == 0 {
        s
    } else {
        muts.last().after(after_all(s, muts.drop_last()))
    }
}

/// The views of a list of changes.
pub open spec fn mutation_views(muts: Seq<MetaMutation>) -> Seq<MutationView> {
    muts.map_values(|m: MetaMutation| m@)
}

impl MetaMutation {
    /// The key of the record that the change touches.
    pub fn key(&self) -> (k: Vec<u8>)
        requires
            self@.key_fits(),
        ensures
            k@ == self@.key_bytes(),
    {
        match self {
            MetaMutation::PutCluster { .. } => meta_cluster_key(),
            MetaMutation::PutNode { entry } => meta_node_key(entry.node_id),
            MetaMutation::PutPlacement { group, .. } => meta_placement_key(*group),
            MetaMutation::PutIndex { record } => meta_search_index_key(record.name.as_str()),
            MetaMutation::DeleteIndex { name } => meta_search_index_key(name.as_str()),
            MetaMutation::PutReady { name, claim } => meta_search_ready_key(
                name.as_str(),
                claim.generation,
                claim.group,
                claim.node_id,
            ),
            MetaMutation::DeleteReady { name, generation, group, node_id } => {
                meta_search_ready_key(name.as_str(), *generation, *group, *node_id)
            },
        }
    }
}

impl MetaState {
    /// A state with no records.
    pub fn new() -> (s: MetaState)
        ensures
            s@ == MetaView::empty(),
            s@.well_formed(),
    {
        let s = MetaState {
            cluster: None,
            nodes: Vec::new(),
            placements: Vec::new(),
            indexes: Vec::new(),
            ready: Vec::new(),
            last_applied: None,
        };
        assert(s@ =~= MetaView::empty());
        s
    }

    fn node_slot(&self, id: NodeId) -> (i: usize)
        ensures
            i == slot(self@.nodes, id),
            i <= self.nodes@.len(),
    {
        let mut i: usize = 0;
        while i < self.nodes.len() && self.nodes[i].node_id != id
            invariant
                i <= self.nodes@.len(),
                forall|j: int| 0 <= j < i ==> (#[trigger] self@.nodes[j]).0 != id,
            decreases self.nodes@.len() - i,
        {
            i += 1;
        }
        proof {
            lemma_slot_is(self@.nodes, id, i as int);
        }
        i
    }

    fn node_rank(&self, id: NodeId) -> (i: usize)
        ensures
            i == rank(self@.nodes, id),
            i <= self.nodes@.len(),
    {
        let mut i: usize = 0;
        while i < self.nodes.len() && self.nodes[i].node_id <= id
            invariant
                i <= self.nodes@.len(),
                forall|j: int| 0 <= j < i ==> (#[trigger] self@.nodes[j]).0 <= id,
            decreases self.nodes@.len() - i,
        {
            i += 1;
        }
        proof {
            lemma_rank_is(self@.nodes, id, i as int);
        }
        i
    }

    fn placement_slot(&self, group: GroupId) -> (i: usize)
        ensures
            i == slot(self@.placements, group),
            i <= self.placements@.len(),
    {
        let mut i: usize = 0;
        while i < self.placements.len() && self.placements[i].0 != group
            invariant
                i <= self.placements@.len(),
                forall|j: int| 0 <= j < i ==> (#[trigger] self@.placements[j]).0 != group,
            decreases self.placements@.len() - i,
        {
            i += 1;
        }
        proof {
            lemma_slot_is(self@.placements, group, i as int);
        }
        i
    }

    fn index_slot(&self, name: &String) -> (i: usize)
        ensures
            i == slot(self@.indexes, name@),
            i <= self.indexes@.len(),
    {
        let mut i: usize = 0;
        while i < self.indexes.len() && !(self.indexes[i].name == *name)
            invariant
                i <= self.indexes@.len(),
                forall|j: int| 0 <= j < i ==> (#[trigger] self@.indexes[j]).0 != name@,
            decreases self.indexes@.len() - i,
        {
            i += 1;
        }
        proof {
            lemma_slot_is(self@.indexes, name@, i as int);
        }
        i
    }

    fn claim_slot(
        &self,
        name: &String,
        generation: u64,
        group: GroupId,
        node_id: NodeId,
    ) -> (i: usize)
        ensures
            i == slot(self@.ready, (name@, generation, group, node_id)),
            i <= self.ready@.len(),
    {
        let ghost key = (name@, generation, group, node_id);
        let mut i: usize = 0;
        while i < self.ready.len() && !(self.ready[i].0 == *name && self.ready[i].1.generation
            == generation && self.ready[i].1.group == group && self.ready[i].1.node_id == node_id)
            invariant
                i <= self.ready@.len(),
                key == (name@, generation, group, node_id),
                forall|j: int| 0 <= j < i ==> (#[trigger] self@.ready[j]).0 != key,
            decreases self.ready@.len() - i,
        {
            i += 1;
        }
        proof {
            lemma_slot_is(self@.ready, key, i as int);
        }
        i
    }

    /// The directory entry of a node.
    pub fn node(&self, id: NodeId) -> (r: Option<&NodeDirectoryEntry>)
        ensures
            match r {
                Some(e) => self@.node(id) == Some(e@),
                None => self@.node(id) is None,
            },
    {
        let i: usize = self.node_slot(id);
        if i < self.nodes.len() {
            Some(&self.nodes[i])
        } else {
            None
        }
    }

    /// The placement of a group.
    pub fn placement(&self, group: GroupId) -> (r: Option<&Placement>)
        ensures
            match r {
                Some(p) => self@.placement(group) == Some(p@),
                None => self@.placement(group) is None,
            },
    {
        let i: usize = self.placement_slot(group);
        if i < self.placements.len() {
            Some(&self.placements[i].1)
        } else {
            None
        }
    }

    /// The record of a search index.
    pub fn index(&self, name: &String) -> (r: Option<&SearchIndexRecord>)
        ensures
            match r {
                Some(x) => self@.index(name@) == Some(x@),
                None => self@.index(name@) is None,
            },
    {
        let i: usize = self.index_slot(name);
        if i < self.indexes.len() {
            Some(&self.indexes[i])
        } else {
            None
        }
    }

    /// A replica's stored readiness claim.
    pub fn claim(&self, name: &String, generation: u64, group: GroupId, node_id: NodeId) -> (r:
        Option<&SearchIndexReady>)
        ensures
            match r {
                Some(c) => self@.claim((name@, generation, group, node_id)) == Some(*c),
                None => self@.claim((name@, generation, group, node_id)) is None,
            },
    {
        let i: usize = self.claim_slot(name, generation, group, node_id);
        if i < self.ready.len() {
            Some(&self.ready[i].1)
        } else {
            None
        }
    }

    /// The whole directory in node order.
    pub fn directory(&self) -> (out: Vec<NodeDirectoryEntry>)
        ensures
            crate::types::entry_views(out@) == self@.directory(),
    {
        let out = crate::types::duplicate_directory(&self.nodes);
        assert(crate::types::entry_views(out@) =~= self@.directory());
        out
    }

    /// Make one change.
    pub fn mutate(&mut self, m: MetaMutation)
        ensures
            final(self)@ == m@.after(old(self)@),
    {
        let ghost before = self@;
        match m {
            MetaMutation::PutCluster { config } => {
                self.cluster = Some(config);
            },
            MetaMutation::PutNode { entry } => {
                let id: u64 = entry.node_id;
                let i: usize = self.node_slot(id);
                if i < self.nodes.len() {
                    self.nodes.set(i, entry);
                } else {
                    let at: usize = self.node_rank(id);
                    self.nodes.insert(at, entry);
                }
                assert(self@.nodes =~= put_ranked(before.nodes, id, entry@));
            },
            MetaMutation::PutPlacement { group, placement } => {
                let i: usize = self.placement_slot(group);
                if i < self.placements.len() {
                    self.placements.set(i, (group, placement));
                } else {
                    self.placements.push((group, placement));
                }
                assert(self@.placements =~= put(before.placements, group, placement@));
            },
            MetaMutation::PutIndex { record } => {
                let i: usize = self.index_slot(&record.name);
                if i < self.indexes.len() {
                    self.indexes.set(i, record);
                } else {
                    self.indexes.push(record);
                }
                assert(self@.indexes =~= put(before.indexes, record.name@, record@));
            },
            MetaMutation::DeleteIndex { name } => {
                let i: usize = self.index_slot(&name);
                if i < self.indexes.len() {
                    self.indexes.remove(i);
                }
                assert(self@.indexes =~= del(before.indexes, name@));
            },
            MetaMutation::PutReady { name, claim } => {
                let i: usize = self.claim_slot(
                    &name,
                    claim.generation,
                    claim.group,
                    claim.node_id,
                );
                if i < self.ready.len() {
                    self.ready.set(i, (name, claim));
                } else {
                    self.ready.push((name, claim));
                }
                assert(self@.ready =~= put(before.ready, ready_key(name@, claim), claim));
            },
            MetaMutation::DeleteReady { name, generation, group, node_id } => {
                let i: usize = self.claim_slot(&name, generation, group, node_id);
                if i < self.ready.len() {
                    self.ready.remove(i);
                }
                assert(self@.ready =~= del(before.ready, (name@, generation, group, node_id)));
            },
        }
        assert(self@ =~= m@.after(before));
    }

    /// Make a run of changes in order.
    pub fn mutate_all(&mut self, muts: Vec<MetaMutation>)
        ensures
            final(self)@ == after_all(old(self)@, mutation_views(muts@)),
    {
        let ghost views = mutation_views(muts@);
        let ghost before = self@;
        let mut rest = muts;
        let total: usize = rest.len();
        proof {
            assert(views.take(0) =~= Seq::<MutationView>::empty());
        }
        let mut done: usize = 0;
        while rest.len() > 0
            invariant
                total == views.len(),
                rest@.len() + done == total,
                views == mutation_views(muts@),
                forall|j: int| 0 <= j < rest@.len() ==> (#[trigger] rest@[j])@ == views[done + j],
                self@ == after_all(before, views.take(done as int)),
            decreases rest@.len(),
        {
            let m = rest.remove(0);
            let ghost view = m@;
            self.mutate(m);
            proof {
                assert(view == views[done as int]);
                assert(views.take(done + 1).drop_last() =~= views.take(done as int));
                assert(views.take(done + 1).last() == views[done as int]);
            }
            done += 1;
        }
        proof {
            assert(views.take(done as int) =~= views);
        }
    }
}

impl MetaView {
    /// The records, each as the change that stores it.
    pub open spec fn puts(self) -> Seq<MutationView> {
        let cluster = match self.cluster {
            Some(config) => seq![MutationView::PutCluster { config }],
            None => Seq::empty(),
        };
        cluster + self.node_puts() + self.placement_puts() + self.index_puts() + self.ready_puts()
    }

    pub open spec fn node_puts(self) -> Seq<MutationView> {
        self.nodes.map_values(
            |e: (NodeId, NodeEntryView)| MutationView::PutNode { entry: e.1 },
        )
    }

    pub open spec fn placement_puts(self) -> Seq<MutationView> {
        self.placements.map_values(
            |e: (GroupId, PlacementView)|
                MutationView::PutPlacement { group: e.0, placement: e.1 },
        )
    }

    pub open spec fn index_puts(self) -> Seq<MutationView> {
        self.indexes.map_values(
            |e: (Seq<char>, RecordView)| MutationView::PutIndex { record: e.1 },
        )
    }

    pub open spec fn ready_puts(self) -> Seq<MutationView> {
        self.ready.map_values(
            |e: (ReadyKey, SearchIndexReady)| MutationView::PutReady { name: e.0.0, claim: e.1 },
        )
    }
}

impl MetaState {
    /// The records for a snapshot, each as the change that stores it.
    pub fn to_records(&self) -> (out: Vec<MetaMutation>)
        ensures
            mutation_views(out@) == self@.puts(),
    {
        let mut out: Vec<MetaMutation> = Vec::new();
        if let Some(config) = self.cluster {
            out.push(MetaMutation::PutCluster { config });
        }
        let ghost cluster = mutation_views(out@);
        let ghost nodes = self@.node_puts();
        let ghost placements = self@.placement_puts();
        let ghost indexes = self@.index_puts();
        let ghost ready = self@.ready_puts();
        assert(cluster =~= match self@.cluster {
            Some(config) => seq![MutationView::PutCluster { config }],
            None => Seq::empty(),
        });
        assert(cluster + nodes.take(0) =~= cluster);
        let mut i: usize = 0;
        while i < self.nodes.len()
            invariant
                i <= self.nodes@.len(),
                nodes == self@.node_puts(),
                mutation_views(out@) == cluster + nodes.take(i as int),
            decreases self.nodes@.len() - i,
        {
            let ghost before = mutation_views(out@);
            out.push(MetaMutation::PutNode { entry: self.nodes[i].duplicate() });
            assert(mutation_views(out@) =~= before.push(nodes[i as int]));
            assert(mutation_views(out@) =~= cluster + nodes.take(i + 1));
            i += 1;
        }
        assert(nodes.take(i as int) =~= nodes);
        let ghost base = cluster + nodes;
        assert(base + placements.take(0) =~= base);
        let mut j: usize = 0;
        while j < self.placements.len()
            invariant
                j <= self.placements@.len(),
                placements == self@.placement_puts(),
                mutation_views(out@) == base + placements.take(j as int),
            decreases self.placements@.len() - j,
        {
            let ghost before = mutation_views(out@);
            let group: GroupId = self.placements[j].0;
            let placement = self.placements[j].1.duplicate();
            out.push(MetaMutation::PutPlacement { group, placement });
            assert(mutation_views(out@) =~= before.push(placements[j as int]));
            assert(mutation_views(out@) =~= base + placements.take(j + 1));
            j += 1;
        }
        assert(placements.take(j as int) =~= placements);
        let ghost base2 = base + placements;
        assert(base2 + indexes.take(0) =~= base2);
        let mut k: usize = 0;
        while k < self.indexes.len()
            invariant
                k <= self.indexes@.len(),
                indexes == self@.index_puts(),
                mutation_views(out@) == base2 + indexes.take(k as int),
            decreases self.indexes@.len() - k,
        {
            let ghost before = mutation_views(out@);
            out.push(MetaMutation::PutIndex { record: self.indexes[k].duplicate() });
            assert(mutation_views(out@) =~= before.push(indexes[k as int]));
            assert(mutation_views(out@) =~= base2 + indexes.take(k + 1));
            k += 1;
        }
        assert(indexes.take(k as int) =~= indexes);
        let ghost base3 = base2 + indexes;
        assert(base3 + ready.take(0) =~= base3);
        let mut l: usize = 0;
        while l < self.ready.len()
            invariant
                l <= self.ready@.len(),
                ready == self@.ready_puts(),
                mutation_views(out@) == base3 + ready.take(l as int),
            decreases self.ready@.len() - l,
        {
            let ghost before = mutation_views(out@);
            let name = self.ready[l].0.clone();
            out.push(MetaMutation::PutReady { name, claim: self.ready[l].1 });
            assert(mutation_views(out@) =~= before.push(ready[l as int]));
            assert(mutation_views(out@) =~= base3 + ready.take(l + 1));
            l += 1;
        }
        assert(ready.take(l as int) =~= ready);
        assert(mutation_views(out@) =~= self@.puts());
        out
    }

    /// The state that the records of a snapshot give.
    pub fn from_records(records: Vec<MetaMutation>) -> (s: MetaState)
        ensures
            s@ == after_all(MetaView::empty(), mutation_views(records@)),
            s@.well_formed(),
    {
        let mut s = MetaState::new();
        s.mutate_all(records);
        proof {
            law_mutations_keep_well_formed(MetaView::empty(), mutation_views(records@));
        }
        s
    }
}

proof fn lemma_after_all_append(s: MetaView, a: Seq<MutationView>, b: Seq<MutationView>)
    ensures
        after_all(s, a + b) == after_all(after_all(s, a), b),
    decreases b.len(),
{
    if b.len() == 0 {
        assert(a + b =~= a);
    } else {
        assert((a + b).drop_last() =~= a + b.drop_last());
        assert((a + b).last() == b.last());
        lemma_after_all_append(s, a, b.drop_last());
    }
}

proof fn lemma_nodes_back(base: MetaView, s: MetaView, n: int)
    requires
        s.well_formed(),
        base.nodes.len() == 0,
        0 <= n <= s.nodes.len(),
    ensures
        after_all(base, s.node_puts().take(n)) == (MetaView { nodes: s.nodes.take(n), ..base }),
    decreases n,
{
    let puts = s.node_puts();
    if n == 0 {
        assert(puts.take(0) =~= Seq::<MutationView>::empty());
        assert(s.nodes.take(0) =~= base.nodes);
    } else {
        lemma_nodes_back(base, s, n - 1);
        assert(puts.take(n).drop_last() =~= puts.take(n - 1));
        let head = s.nodes.take(n - 1);
        let (id, entry) = s.nodes[n - 1];
        assert(puts.take(n).last() == (MutationView::PutNode { entry }));
        assert forall|j: int| 0 <= j < head.len() implies (#[trigger] head[j]).0 < id by {
            assert(s.nodes[j].0 < s.nodes[n - 1].0);
        }
        lemma_slot_is(head, id, head.len() as int);
        lemma_rank_is(head, id, head.len() as int);
        assert(entry.node_id == id);
        assert(put_ranked(head, id, entry) =~= s.nodes.take(n));
    }
}

proof fn lemma_placements_back(base: MetaView, s: MetaView, n: int)
    requires
        s.well_formed(),
        base.placements.len() == 0,
        0 <= n <= s.placements.len(),
    ensures
        after_all(base, s.placement_puts().take(n)) == (MetaView {
            placements: s.placements.take(n),
            ..base
        }),
    decreases n,
{
    let puts = s.placement_puts();
    if n == 0 {
        assert(puts.take(0) =~= Seq::<MutationView>::empty());
        assert(s.placements.take(0) =~= base.placements);
    } else {
        lemma_placements_back(base, s, n - 1);
        assert(puts.take(n).drop_last() =~= puts.take(n - 1));
        let head = s.placements.take(n - 1);
        let (group, placement) = s.placements[n - 1];
        assert forall|j: int| 0 <= j < head.len() implies (#[trigger] head[j]).0 != group by {
            assert(s.placements[j].0 != s.placements[n - 1].0);
        }
        lemma_slot_is(head, group, head.len() as int);
        assert(put(head, group, placement) =~= s.placements.take(n));
    }
}

proof fn lemma_indexes_back(base: MetaView, s: MetaView, n: int)
    requires
        s.well_formed(),
        base.indexes.len() == 0,
        0 <= n <= s.indexes.len(),
    ensures
        after_all(base, s.index_puts().take(n)) == (MetaView {
            indexes: s.indexes.take(n),
            ..base
        }),
    decreases n,
{
    let puts = s.index_puts();
    if n == 0 {
        assert(puts.take(0) =~= Seq::<MutationView>::empty());
        assert(s.indexes.take(0) =~= base.indexes);
    } else {
        lemma_indexes_back(base, s, n - 1);
        assert(puts.take(n).drop_last() =~= puts.take(n - 1));
        let head = s.indexes.take(n - 1);
        let (name, record) = s.indexes[n - 1];
        assert forall|j: int| 0 <= j < head.len() implies (#[trigger] head[j]).0 != name by {
            assert(s.indexes[j].0 != s.indexes[n - 1].0);
        }
        lemma_slot_is(head, name, head.len() as int);
        assert(record.name == name);
        assert(put(head, name, record) =~= s.indexes.take(n));
    }
}

proof fn lemma_ready_back(base: MetaView, s: MetaView, n: int)
    requires
        s.well_formed(),
        base.ready.len() == 0,
        0 <= n <= s.ready.len(),
    ensures
        after_all(base, s.ready_puts().take(n)) == (MetaView { ready: s.ready.take(n), ..base }),
    decreases n,
{
    let puts = s.ready_puts();
    if n == 0 {
        assert(puts.take(0) =~= Seq::<MutationView>::empty());
        assert(s.ready.take(0) =~= base.ready);
    } else {
        lemma_ready_back(base, s, n - 1);
        assert(puts.take(n).drop_last() =~= puts.take(n - 1));
        let head = s.ready.take(n - 1);
        let (key, claim) = s.ready[n - 1];
        assert forall|j: int| 0 <= j < head.len() implies (#[trigger] head[j]).0 != key by {
            assert(s.ready[j].0 != s.ready[n - 1].0);
        }
        lemma_slot_is(head, key, head.len() as int);
        assert(ready_key(key.0, claim) == key);
        assert(put(head, key, claim) =~= s.ready.take(n));
    }
}

/// The records of a snapshot give back the state that they were taken from, but
/// for the position that it reflects, which a snapshot names by itself.
pub proof fn law_records_round_trip(s: MetaView)
    requires
        s.well_formed(),
    ensures
        after_all(MetaView::empty(), s.puts()) == (MetaView { last_applied: None, ..s }),
{
    let none = MetaView::empty();
    let cluster = match s.cluster {
        Some(config) => seq![MutationView::PutCluster { config }],
        None => Seq::empty(),
    };
    let a = cluster + s.node_puts();
    let b = a + s.placement_puts();
    let c = b + s.index_puts();
    let s0 = MetaView { cluster: s.cluster, ..none };
    assert(after_all(none, cluster) == s0) by {
        if s.cluster is Some {
            assert(cluster.drop_last() =~= Seq::<MutationView>::empty());
            assert(after_all(none, cluster.drop_last()) == none);
        }
    }
    lemma_after_all_append(none, cluster, s.node_puts());
    lemma_nodes_back(s0, s, s.nodes.len() as int);
    assert(s.node_puts().take(s.nodes.len() as int) =~= s.node_puts());
    assert(s.nodes.take(s.nodes.len() as int) =~= s.nodes);
    let s1 = MetaView { nodes: s.nodes, ..s0 };
    lemma_after_all_append(none, a, s.placement_puts());
    lemma_placements_back(s1, s, s.placements.len() as int);
    assert(s.placement_puts().take(s.placements.len() as int) =~= s.placement_puts());
    assert(s.placements.take(s.placements.len() as int) =~= s.placements);
    let s2 = MetaView { placements: s.placements, ..s1 };
    lemma_after_all_append(none, b, s.index_puts());
    lemma_indexes_back(s2, s, s.indexes.len() as int);
    assert(s.index_puts().take(s.indexes.len() as int) =~= s.index_puts());
    assert(s.indexes.take(s.indexes.len() as int) =~= s.indexes);
    let s3 = MetaView { indexes: s.indexes, ..s2 };
    lemma_after_all_append(none, c, s.ready_puts());
    lemma_ready_back(s3, s, s.ready.len() as int);
    assert(s.ready_puts().take(s.ready.len() as int) =~= s.ready_puts());
    assert(s.ready.take(s.ready.len() as int) =~= s.ready);
}

/// A change that keeps well-formed records well-formed.
pub proof fn lemma_mutation_well_formed(s: MetaView, m: MutationView)
    requires
        s.well_formed(),
    ensures
        m.after(s).well_formed(),
{
    let t = m.after(s);
    match m {
        MutationView::PutCluster { .. } => {},
        MutationView::PutNode { entry } => {
            crate::assoc::lemma_put_ranked(s.nodes, entry.node_id, entry);
            crate::assoc::lemma_rank(s.nodes, entry.node_id);
            crate::assoc::lemma_slot(s.nodes, entry.node_id);
            assert forall|i: int| 0 <= i < t.nodes.len() implies (#[trigger] t.nodes[i]).1.node_id
                == t.nodes[i].0 by {
                if holds_key(s.nodes, entry.node_id) {
                    if i != slot(s.nodes, entry.node_id) {
                        assert(t.nodes[i] == s.nodes[i]);
                    }
                } else {
                    let r = rank(s.nodes, entry.node_id);
                    if i < r {
                        assert(t.nodes[i] == s.nodes[i]);
                    } else if i > r {
                        assert(t.nodes[i] == s.nodes[i - 1]);
                    }
                }
            }
        },
        MutationView::PutPlacement { group, placement } => {
            crate::assoc::lemma_put(s.placements, group, placement);
        },
        MutationView::PutIndex { record } => {
            crate::assoc::lemma_put(s.indexes, record.name, record);
            crate::assoc::lemma_slot(s.indexes, record.name);
            assert forall|i: int| 0 <= i < t.indexes.len() implies (#[trigger] t.indexes[i]).1.name
                == t.indexes[i].0 by {
                if i < s.indexes.len() && i != slot(s.indexes, record.name) {
                    assert(t.indexes[i] == s.indexes[i]);
                }
            }
        },
        MutationView::DeleteIndex { name } => {
            crate::assoc::lemma_del(s.indexes, name);
            crate::assoc::lemma_slot(s.indexes, name);
            assert forall|i: int| 0 <= i < t.indexes.len() implies (#[trigger] t.indexes[i]).1.name
                == t.indexes[i].0 by {
                if holds_key(s.indexes, name) && i >= slot(s.indexes, name) {
                    assert(t.indexes[i] == s.indexes[i + 1]);
                } else {
                    assert(t.indexes[i] == s.indexes[i]);
                }
            }
        },
        MutationView::PutReady { name, claim } => {
            let key = ready_key(name, claim);
            crate::assoc::lemma_put(s.ready, key, claim);
            crate::assoc::lemma_slot(s.ready, key);
            assert forall|i: int| 0 <= i < t.ready.len() implies (#[trigger] t.ready[i]).0
                == ready_key(t.ready[i].0.0, t.ready[i].1) by {
                if i < s.ready.len() && i != slot(s.ready, key) {
                    assert(t.ready[i] == s.ready[i]);
                }
            }
        },
        MutationView::DeleteReady { key } => {
            crate::assoc::lemma_del(s.ready, key);
            crate::assoc::lemma_slot(s.ready, key);
            assert forall|i: int| 0 <= i < t.ready.len() implies (#[trigger] t.ready[i]).0
                == ready_key(t.ready[i].0.0, t.ready[i].1) by {
                if holds_key(s.ready, key) && i >= slot(s.ready, key) {
                    assert(t.ready[i] == s.ready[i + 1]);
                } else {
                    assert(t.ready[i] == s.ready[i]);
                }
            }
        },
    }
}

/// Every run of changes keeps the records well-formed.
pub proof fn law_mutations_keep_well_formed(s: MetaView, muts: Seq<MutationView>)
    requires
        s.well_formed(),
    ensures
        after_all(s, muts).well_formed(),
    decreases muts.len(),
{
    if muts.len() > 0 {
        law_mutations_keep_well_formed(s, muts.drop_last());
        lemma_mutation_well_formed(after_all(s, muts.drop_last()), muts.last());
    }
}

/// A record is deleted under the key that it was put under, and each kind of record
/// stands under the key of its own kind.
pub proof fn law_deletes_meet_their_puts(record: RecordView, name: Seq<char>, claim: SearchIndexReady)
    ensures
        ({
            let put_index = MutationView::PutIndex { record };
            let delete_index = MutationView::DeleteIndex { name: record.name };
            let put_claim = MutationView::PutReady { name, claim };
            let delete_claim = MutationView::DeleteReady {
                key: (name, claim.generation, claim.group, claim.node_id),
            };
            &&& put_index.key_bytes() == meta_search_index_bytes(record.name)
            &&& delete_index.key_bytes() == put_index.key_bytes()
            &&& put_claim.key_bytes() == meta_search_ready_bytes(
                name,
                claim.generation,
                claim.group,
                claim.node_id,
            )
            &&& delete_claim.key_bytes() == put_claim.key_bytes()
        }),
{
}

} // verus!
